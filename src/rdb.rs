use crate::error::Error;
use vstd::prelude::*;

verus! {

pub const RDB_TYPE_HASH: u8 = 4;
pub const RDB_TYPE_HASH_ZIPMAP: u8 = 9;
pub const RDB_TYPE_HASH_ZIPLIST: u8 = 13;
pub const RDB_TYPE_HASH_LISTPACK: u8 = 16;

/// A Redis string: raw bytes.
pub type RedisString = Vec<u8>;

/// The unsigned big-endian value of `d[p..p + n]`.
pub open spec fn be_value(d: Seq<u8>, p: int, n: nat) -> nat
    decreases n,
{
    if n == 0 {
        0
    } else {
        be_value(d, p, (n - 1) as nat) * 256 + d[p + n - 1] as nat
    }
}

/// The unsigned little-endian value of `d[p..p + n]`.
pub open spec fn le_value(d: Seq<u8>, p: int, n: nat) -> nat
    decreases n,
{
    if n == 0 {
        0
    } else {
        le_value(d, p + 1, (n - 1) as nat) * 256 + d[p] as nat
    }
}

/// The value of a two's-complement number of `n` bytes.
pub open spec fn signed_of(u: nat, n: nat) -> int {
    let half = pow256(n) / 2;
    if u >= half {
        u - pow256(n)
    } else {
        u as int
    }
}

pub open spec fn pow256(n: nat) -> nat
    decreases n,
{
    if n == 0 {
        1
    } else {
        256 * pow256((n - 1) as nat)
    }
}

/// The decimal digits of `x`.
pub open spec fn digits_of(x: nat) -> Seq<u8>
    decreases x,
{
    if x < 10 {
        seq![(x + 48) as u8]
    } else {
        digits_of(x / 10).push(((x % 10) + 48) as u8)
    }
}

/// The decimal text of an integer, with a leading `-` when negative.
pub open spec fn int_text(x: int) -> Seq<u8> {
    if x < 0 {
        seq![45u8] + digits_of((-x) as nat)
    } else {
        digits_of(x as nat)
    }
}

/// An RDB length at `p`: its value and the position after it.
pub open spec fn length_at(d: Seq<u8>, p: int) -> Option<(nat, int)> {
    if p < 0 || p >= d.len() {
        None
    } else {
        let b = d[p];
        if b < 0x40 {
            Some(((b % 64) as nat, p + 1))
        } else if b < 0x80 {
            if d.len() - p < 2 { None } else { Some((((b % 64) as nat) * 256 + d[p + 1] as nat, p + 2)) }
        } else if b == 0x80 {
            if d.len() - p < 5 { None } else { Some((be_value(d, p + 1, 4), p + 5)) }
        } else if b == 0x81 {
            if d.len() - p < 9 { None } else { Some((be_value(d, p + 1, 8), p + 9)) }
        } else {
            None
        }
    }
}

/// An RDB string at `p`: raw bytes after their length, or an integer stored in
/// 1, 2 or 4 little-endian bytes, read as its decimal text. Compressed strings
/// are not read.
pub open spec fn string_at(d: Seq<u8>, p: int) -> Option<(Seq<u8>, int)> {
    if p < 0 || p >= d.len() {
        None
    } else if d[p] >= 0xc0 {
        let n: nat = if d[p] == 0xc0 { 1 } else if d[p] == 0xc1 { 2 } else { 4 };
        if d[p] > 0xc2 || p + 1 + n > d.len() {
            None
        } else {
            Some((int_text(signed_of(le_value(d, p + 1, n), n)), p + 1 + n))
        }
    } else {
        match length_at(d, p) {
            Some((len, q)) => if q + len > d.len() { None } else { Some((d.subrange(q, q + len), q + len)) },
            None => None,
        }
    }
}

/// A ziplist stored as an RDB string at `p`: its entries and the position after it.
pub open spec fn zip_list_at(d: Seq<u8>, p: int) -> Option<(Seq<Seq<u8>>, int)> {
    match string_at(d, p) {
        Some((blob, q)) => match zl_entries(blob, 10) {
            Some(vs) => Some((vs, q)),
            None => None,
        },
        None => None,
    }
}

/// A listpack stored as an RDB string at `p`: its entries and the position after it.
pub open spec fn list_pack_at(d: Seq<u8>, p: int) -> Option<(Seq<Seq<u8>>, int)> {
    match string_at(d, p) {
        Some((blob, q)) => match lp_entries(blob, 6) {
            Some(vs) => Some((vs, q)),
            None => None,
        },
        None => None,
    }
}

/// `n` field-value pairs stored as RDB strings from `p` on.
pub open spec fn hash_pairs_at(d: Seq<u8>, p: int, n: nat) -> Option<(Seq<(Seq<u8>, Seq<u8>)>, int)>
    decreases n,
{
    if n == 0 {
        Some((Seq::empty(), p))
    } else {
        match string_at(d, p) {
            Some((k, q)) => match string_at(d, q) {
                Some((v, q2)) => match hash_pairs_at(d, q2, (n - 1) as nat) {
                    Some((rest, q3)) => Some((seq![(k, v)] + rest, q3)),
                    None => None,
                },
                None => None,
            },
            None => None,
        }
    }
}

/// Consecutive items taken as field-value pairs; `None` for an odd count.
pub open spec fn pairs_of(items: Seq<Seq<u8>>) -> Option<Seq<(Seq<u8>, Seq<u8>)>> {
    if items.len() % 2 == 1 {
        None
    } else {
        Some(Seq::new(items.len() / 2, |i: int| (items[2 * i], items[2 * i + 1])))
    }
}

pub open spec fn pairs_view(v: Seq<(RedisString, RedisString)>) -> Seq<(Seq<u8>, Seq<u8>)> {
    v.map_values(|p: (RedisString, RedisString)| (p.0@, p.1@))
}

/// A Redis hash: its key and its field-value pairs in stored order.
#[derive(Clone, Debug, PartialEq)]
pub struct HashObject {
    pub key: RedisString,
    pub value: Vec<(RedisString, RedisString)>,
}

/// The field-value pairs that an object of RDB type `type_byte` holds at `p`,
/// and the position after it.
pub open spec fn hash_value_at(d: Seq<u8>, p: int, type_byte: u8) -> Option<(Seq<(Seq<u8>, Seq<u8>)>, int)> {
    if type_byte == RDB_TYPE_HASH {
        match length_at(d, p) {
            Some((n, q)) => hash_pairs_at(d, q, n),
            None => None,
        }
    } else if type_byte == RDB_TYPE_HASH_ZIPLIST {
        match zip_list_at(d, p) {
            Some((items, q)) => match pairs_of(items) {
                Some(ps) => Some((ps, q)),
                None => None,
            },
            None => None,
        }
    } else if type_byte == RDB_TYPE_HASH_LISTPACK {
        match list_pack_at(d, p) {
            Some((items, q)) => match pairs_of(items) {
                Some(ps) => Some((ps, q)),
                None => None,
            },
            None => None,
        }
    } else {
        None
    }
}

/// A byte reader over an RDB payload.
pub struct RdbReader {
    pub data: Vec<u8>,
    pub pos: usize,
}

fn be_read(d: &Vec<u8>, p: usize, n: usize) -> (r: u64)
    requires
        p + n <= d@.len(),
        n <= 8,
    ensures
        r as nat == be_value(d@, p as int, n as nat),
{
    let total = d.len();
    let mut v: u64 = 0;
    let mut k: usize = 0;
    while k < n
        invariant
            total == d@.len(),
            p + n <= d@.len(),
            n <= 8,
            0 <= k <= n,
            v as nat == be_value(d@, p as int, k as nat),
            (v as nat) < pow256(k as nat),
        decreases n - k,
    {
        proof {
            lemma_pow256_values();
            assert(pow256((k + 1) as nat) == 256 * pow256(k as nat));
            assert(pow256(k as nat) <= 0x100_0000_0000_0000);
            assert((v as nat) * 256 + (d@[p + k] as nat) < pow256((k + 1) as nat)) by (nonlinear_arith)
                requires (v as nat) < pow256(k as nat), d@[p + k] < 256, pow256((k + 1) as nat) == 256 * pow256(k as nat);
            assert((v as nat) * 256 + (d@[p + k] as nat) < 0x1_0000_0000_0000_0000) by (nonlinear_arith)
                requires (v as nat) < pow256(k as nat), d@[p + k] < 256, pow256(k as nat) <= 0x100_0000_0000_0000;
        }
        v = v * 256 + d[p + k] as u64;
        k = k + 1;
    }
    v
}

proof fn lemma_pow256_values()
    ensures
        pow256(0) == 1,
        pow256(1) == 0x100,
        pow256(2) == 0x1_0000,
        pow256(3) == 0x100_0000,
        pow256(4) == 0x1_0000_0000,
        pow256(5) == 0x100_0000_0000,
        pow256(6) == 0x1_0000_0000_0000,
        pow256(7) == 0x100_0000_0000_0000,
        pow256(8) == 0x1_0000_0000_0000_0000,
{
    reveal_with_fuel(pow256, 9);
}

fn le_read(d: &Vec<u8>, p: usize, n: usize) -> (r: u64)
    requires
        p + n <= d@.len(),
        n <= 8,
    ensures
        r as nat == le_value(d@, p as int, n as nat),
    decreases n,
{
    let total = d.len();
    if n == 0 {
        0
    } else {
        let rest = le_read(d, p + 1, n - 1);
        proof {
            lemma_le_bound(d@, p as int + 1, (n - 1) as nat);
            lemma_pow256_values();
            assert(pow256((n - 1) as nat) <= 0x100_0000_0000_0000);
            assert((rest as nat) * 256 + (d@[p as int] as nat) < 0x1_0000_0000_0000_0000) by (nonlinear_arith)
                requires (rest as nat) < pow256((n - 1) as nat), d@[p as int] < 256, pow256((n - 1) as nat) <= 0x100_0000_0000_0000;
        }
        rest * 256 + d[p] as u64
    }
}

proof fn lemma_le_bound(d: Seq<u8>, p: int, n: nat)
    requires
        n <= 8,
        0 <= p,
        p + n <= d.len(),
    ensures
        le_value(d, p, n) < pow256(n),
        pow256(n) <= 0x1_0000_0000_0000_0000,
    decreases n,
{
    lemma_pow256_values();
    if n > 0 {
        lemma_le_bound(d, p + 1, (n - 1) as nat);
        assert(le_value(d, p + 1, (n - 1) as nat) * 256 + (d[p] as nat) < pow256(n)) by (nonlinear_arith)
            requires le_value(d, p + 1, (n - 1) as nat) < pow256((n - 1) as nat), d[p] < 256, pow256(n) == 256 * pow256((n - 1) as nat);
    }
}

fn digits(x: u64) -> (r: Vec<u8>)
    ensures
        r@ == digits_of(x as nat),
    decreases x,
{
    if x < 10 {
        vec![(x + 48) as u8]
    } else {
        let mut v = digits(x / 10);
        v.push(((x % 10) + 48) as u8);
        v
    }
}

fn int_text_exec(x: i64) -> (r: Vec<u8>)
    ensures
        r@ == int_text(x as int),
{
    if x < 0 {
        let mag: u64 = (-(x as i128)) as u64;
        let mut out = vec![45u8];
        let d = digits(mag);
        let mut i: usize = 0;
        while i < d.len()
            invariant
                0 <= i <= d@.len(),
                out@ == seq![45u8] + d@.take(i as int),
            decreases d.len() - i,
        {
            out.push(d[i]);
            assert(out@ =~= seq![45u8] + d@.take(i + 1));
            i = i + 1;
        }
        assert(d@.take(i as int) =~= d@);
        out
    } else {
        digits(x as u64)
    }
}

/// Reads an `n`-byte little-endian two's-complement integer.
fn le_signed(d: &Vec<u8>, p: usize, n: usize) -> (r: i64)
    requires
        p + n <= d@.len(),
        1 <= n <= 8,
    ensures
        r as int == signed_of(le_value(d@, p as int, n as nat), n as nat),
{
    let u = le_read(d, p, n);
    proof {
        lemma_le_bound(d@, p as int, n as nat);
        lemma_pow256_values();
    }
    let full: i128 = if n == 1 {
        0x100
    } else if n == 2 {
        0x1_0000
    } else if n == 3 {
        0x100_0000
    } else if n == 4 {
        0x1_0000_0000
    } else if n == 5 {
        0x100_0000_0000
    } else if n == 6 {
        0x1_0000_0000_0000
    } else if n == 7 {
        0x100_0000_0000_0000
    } else {
        0x1_0000_0000_0000_0000
    };
    assert(full as nat == pow256(n as nat));
    let v: i128 = if (u as i128) >= full / 2 {
        u as i128 - full
    } else {
        u as i128
    };
    v as i64
}

/// Where the data of a ziplist entry at `p` starts and how it reads: a string
/// of a given length, or an integer.
pub enum EntryData {
    Str { start: int, len: nat },
    Int { value: int, end: int },
}

/// The content of a ziplist entry at `p`, after its previous-entry length.
pub open spec fn zl_data_at(z: Seq<u8>, e: int) -> Option<EntryData> {
    if e < 0 || e >= z.len() {
        None
    } else {
        let enc = z[e];
        if enc < 0x40 {
            Some(EntryData::Str { start: e + 1, len: (enc % 64) as nat })
        } else if enc < 0x80 {
            if e + 2 > z.len() { None } else { Some(EntryData::Str { start: e + 2, len: ((enc % 64) as nat) * 256 + z[e + 1] as nat }) }
        } else if enc == 0x80 {
            if e + 5 > z.len() { None } else { Some(EntryData::Str { start: e + 5, len: be_value(z, e + 1, 4) }) }
        } else if enc == 0xc0 {
            if e + 3 > z.len() { None } else { Some(EntryData::Int { value: signed_of(le_value(z, e + 1, 2), 2), end: e + 3 }) }
        } else if enc == 0xd0 {
            if e + 5 > z.len() { None } else { Some(EntryData::Int { value: signed_of(le_value(z, e + 1, 4), 4), end: e + 5 }) }
        } else if enc == 0xe0 {
            if e + 9 > z.len() { None } else { Some(EntryData::Int { value: signed_of(le_value(z, e + 1, 8), 8), end: e + 9 }) }
        } else if enc == 0xf0 {
            if e + 4 > z.len() { None } else { Some(EntryData::Int { value: signed_of(le_value(z, e + 1, 3), 3), end: e + 4 }) }
        } else if enc == 0xfe {
            if e + 2 > z.len() { None } else { Some(EntryData::Int { value: signed_of(le_value(z, e + 1, 1), 1), end: e + 2 }) }
        } else if 0xf1 <= enc && enc <= 0xfd {
            Some(EntryData::Int { value: (enc % 16) - 1, end: e + 1 })
        } else {
            None
        }
    }
}

/// A ziplist entry at `p`: its value as text and the position after it.
pub open spec fn zl_entry_at(z: Seq<u8>, p: int) -> Option<(Seq<u8>, int)> {
    if p < 0 || p >= z.len() || z[p] == 0xff {
        None
    } else {
        let e = if z[p] < 254 { p + 1 } else { p + 5 };
        match zl_data_at(z, e) {
            Some(EntryData::Str { start, len }) => if start + len > z.len() { None } else { Some((z.subrange(start, start + len), start + len)) },
            Some(EntryData::Int { value, end }) => Some((int_text(value), end)),
            None => None,
        }
    }
}

/// The entries of a ziplist from `p` to its end marker.
pub open spec fn zl_entries(z: Seq<u8>, p: int) -> Option<Seq<Seq<u8>>>
    decreases z.len() - p,
{
    if p < 0 || p >= z.len() {
        None
    } else if z[p] == 0xff {
        Some(Seq::empty())
    } else {
        match zl_entry_at(z, p) {
            Some((v, q)) => if q <= p {
                None
            } else {
                match zl_entries(z, q) {
                    Some(rest) => Some(seq![v] + rest),
                    None => None,
                }
            },
            None => None,
        }
    }
}

/// The size of a listpack entry's back-length field for an entry of `n` bytes.
pub open spec fn lp_backlen_size(n: nat) -> nat {
    if n < 128 {
        1
    } else if n < 16384 {
        2
    } else if n < 2097152 {
        3
    } else if n < 268435456 {
        4
    } else {
        5
    }
}

/// The content of a listpack entry at `p` and the length of its encoding and data.
pub open spec fn lp_data_at(l: Seq<u8>, p: int) -> Option<(EntryData, nat)> {
    if p < 0 || p >= l.len() {
        None
    } else {
        let b = l[p];
        if b < 0x80 {
            Some((EntryData::Int { value: b as int, end: p + 1 }, 1))
        } else if b < 0xc0 {
            Some((EntryData::Str { start: p + 1, len: (b % 64) as nat }, 1 + (b % 64) as nat))
        } else if b < 0xe0 {
            if p + 2 > l.len() {
                None
            } else {
                let u = ((b % 32) as nat) * 256 + l[p + 1] as nat;
                Some((EntryData::Int { value: if u >= 4096 { u - 8192 } else { u as int }, end: p + 2 }, 2))
            }
        } else if b < 0xf0 {
            if p + 2 > l.len() {
                None
            } else {
                let len = ((b % 16) as nat) * 256 + l[p + 1] as nat;
                Some((EntryData::Str { start: p + 2, len }, 2 + len))
            }
        } else if b == 0xf0 {
            if p + 5 > l.len() { None } else { Some((EntryData::Str { start: p + 5, len: le_value(l, p + 1, 4) }, 5 + le_value(l, p + 1, 4))) }
        } else if b == 0xf1 {
            if p + 3 > l.len() { None } else { Some((EntryData::Int { value: signed_of(le_value(l, p + 1, 2), 2), end: p + 3 }, 3)) }
        } else if b == 0xf2 {
            if p + 4 > l.len() { None } else { Some((EntryData::Int { value: signed_of(le_value(l, p + 1, 3), 3), end: p + 4 }, 4)) }
        } else if b == 0xf3 {
            if p + 5 > l.len() { None } else { Some((EntryData::Int { value: signed_of(le_value(l, p + 1, 4), 4), end: p + 5 }, 5)) }
        } else if b == 0xf4 {
            if p + 9 > l.len() { None } else { Some((EntryData::Int { value: signed_of(le_value(l, p + 1, 8), 8), end: p + 9 }, 9)) }
        } else {
            None
        }
    }
}

/// A listpack entry at `p`: its value as text and the position after its
/// back-length field.
pub open spec fn lp_entry_at(l: Seq<u8>, p: int) -> Option<(Seq<u8>, int)> {
    if p < 0 || p >= l.len() || l[p] == 0xff {
        None
    } else {
        match lp_data_at(l, p) {
            Some((EntryData::Str { start, len }, n)) => if start + len > l.len() || p + n + lp_backlen_size(n) > l.len() {
                None
            } else {
                Some((l.subrange(start, start + len), p + n + lp_backlen_size(n)))
            },
            Some((EntryData::Int { value, end }, n)) => if p + n + lp_backlen_size(n) > l.len() {
                None
            } else {
                Some((int_text(value), p + n + lp_backlen_size(n)))
            },
            None => None,
        }
    }
}

/// The entries of a listpack from `p` to its end marker.
pub open spec fn lp_entries(l: Seq<u8>, p: int) -> Option<Seq<Seq<u8>>>
    decreases l.len() - p,
{
    if p < 0 || p >= l.len() {
        None
    } else if l[p] == 0xff {
        Some(Seq::empty())
    } else {
        match lp_entry_at(l, p) {
            Some((v, q)) => if q <= p {
                None
            } else {
                match lp_entries(l, q) {
                    Some(rest) => Some(seq![v] + rest),
                    None => None,
                }
            },
            None => None,
        }
    }
}

pub open spec fn prepend(out: Seq<Seq<u8>>, r: Option<Seq<Seq<u8>>>) -> Option<Seq<Seq<u8>>> {
    match r {
        Some(x) => Some(out + x),
        None => None,
    }
}

fn copy_range(d: &Vec<u8>, from: usize, to: usize) -> (r: Vec<u8>)
    requires
        from <= to <= d@.len(),
    ensures
        r@ == d@.subrange(from as int, to as int),
{
    let mut out: Vec<u8> = Vec::new();
    let mut i: usize = from;
    while i < to
        invariant
            from <= i <= to,
            to <= d@.len(),
            out@ == d@.subrange(from as int, i as int),
        decreases to - i,
    {
        out.push(d[i]);
        assert(out@ =~= d@.subrange(from as int, i + 1));
        i = i + 1;
    }
    out
}

fn zl_entry(z: &Vec<u8>, p: usize) -> (r: Option<(Vec<u8>, usize)>)
    ensures
        match zl_entry_at(z@, p as int) {
            Some((v, q)) => r is Some && r.unwrap().0@ == v && r.unwrap().1 as int == q,
            None => r is None,
        },
{
    let n = z.len();
    if p >= n || z[p] == 0xff {
        return None;
    }
    let e: usize = if z[p] < 254 {
        p + 1
    } else {
        if n - p < 5 {
            assert(zl_data_at(z@, p + 5) is None);
            return None;
        }
        p + 5
    };
    if e >= n {
        return None;
    }
    let enc = z[e];
    if enc < 0x80 || enc == 0x80 {
        let (start, len): (usize, u64) = if enc < 0x40 {
            (e + 1, (enc % 64) as u64)
        } else if enc < 0x80 {
            if n - e < 2 {
                return None;
            }
            (e + 2, ((enc % 64) as u64) * 256 + z[e + 1] as u64)
        } else {
            if n - e < 5 {
                return None;
            }
            (e + 5, be_read(z, e + 1, 4))
        };
        if start > n || len > (n - start) as u64 {
            return None;
        }
        let end = start + len as usize;
        return Some((copy_range(z, start, end), end));
    }
    let (value, end): (i64, usize) = if enc == 0xc0 {
        if n - e < 3 {
            return None;
        }
        (le_signed(z, e + 1, 2), e + 3)
    } else if enc == 0xd0 {
        if n - e < 5 {
            return None;
        }
        (le_signed(z, e + 1, 4), e + 5)
    } else if enc == 0xe0 {
        if n - e < 9 {
            return None;
        }
        (le_signed(z, e + 1, 8), e + 9)
    } else if enc == 0xf0 {
        if n - e < 4 {
            return None;
        }
        (le_signed(z, e + 1, 3), e + 4)
    } else if enc == 0xfe {
        if n - e < 2 {
            return None;
        }
        (le_signed(z, e + 1, 1), e + 2)
    } else if 0xf1 <= enc && enc <= 0xfd {
        ((enc % 16) as i64 - 1, e + 1)
    } else {
        return None;
    };
    Some((int_text_exec(value), end))
}

fn lp_backlen(n: u64) -> (r: u64)
    ensures
        r as nat == lp_backlen_size(n as nat),
{
    if n < 128 {
        1
    } else if n < 16384 {
        2
    } else if n < 2097152 {
        3
    } else if n < 268435456 {
        4
    } else {
        5
    }
}

fn lp_entry(l: &Vec<u8>, p: usize) -> (r: Option<(Vec<u8>, usize)>)
    ensures
        match lp_entry_at(l@, p as int) {
            Some((v, q)) => r is Some && r.unwrap().0@ == v && r.unwrap().1 as int == q,
            None => r is None,
        },
{
    let n = l.len();
    if p >= n || l[p] == 0xff {
        return None;
    }
    let b = l[p];
    let is_str = (0x80 <= b && b < 0xc0) || (0xe0 <= b && b < 0xf0) || b == 0xf0;
    if is_str {
        let (start, len): (usize, u64) = if b < 0xc0 {
            (p + 1, (b % 64) as u64)
        } else if b < 0xf0 {
            if n - p < 2 {
                return None;
            }
            (p + 2, ((b % 16) as u64) * 256 + l[p + 1] as u64)
        } else {
            if n - p < 5 {
                return None;
            }
            (p + 5, le_read(l, p + 1, 4))
        };
        if start > n || len > (n - start) as u64 {
            return None;
        }
        let end = start + len as usize;
        let enc_len: u64 = (start - p) as u64 + len;
        let back = lp_backlen(enc_len);
        assert(enc_len as nat == lp_data_at(l@, p as int).unwrap().1);
        if back > (n - end) as u64 {
            return None;
        }
        let next = end + back as usize;
        return Some((copy_range(l, start, end), next));
    }
    let (value, enc_len): (i64, usize) = if b < 0x80 {
        (b as i64, 1)
    } else if b < 0xe0 {
        if n - p < 2 {
            return None;
        }
        let u: i64 = ((b % 32) as i64) * 256 + l[p + 1] as i64;
        (if u >= 4096 { u - 8192 } else { u }, 2)
    } else if b == 0xf1 {
        if n - p < 3 {
            return None;
        }
        (le_signed(l, p + 1, 2), 3)
    } else if b == 0xf2 {
        if n - p < 4 {
            return None;
        }
        (le_signed(l, p + 1, 3), 4)
    } else if b == 0xf3 {
        if n - p < 5 {
            return None;
        }
        (le_signed(l, p + 1, 4), 5)
    } else if b == 0xf4 {
        if n - p < 9 {
            return None;
        }
        (le_signed(l, p + 1, 8), 9)
    } else {
        return None;
    };
    if n - p < enc_len + 1 {
        return None;
    }
    Some((int_text_exec(value), p + enc_len + 1))
}

fn zl_all(z: &Vec<u8>, start: usize) -> (r: Option<Vec<Vec<u8>>>)
    ensures
        match zl_entries(z@, start as int) {
            Some(vs) => r is Some && r.unwrap()@.map_values(|x: Vec<u8>| x@) == vs,
            None => r is None,
        },
{
    let mut out: Vec<Vec<u8>> = Vec::new();
    let mut p: usize = start;
    while p < z.len() && z[p] != 0xff
        invariant
            zl_entries(z@, start as int) == prepend(out@.map_values(|x: Vec<u8>| x@), zl_entries(z@, p as int)),
        decreases z@.len() - p,
    {
        match zl_entry(z, p) {
            None => {
                return None;
            },
            Some((v, q)) => {
                if q <= p {
                    return None;
                }
                let ghost vv = v@;
                let ghost old_out = out@.map_values(|x: Vec<u8>| x@);
                out.push(v);
                assert(out@.map_values(|x: Vec<u8>| x@) =~= old_out.push(vv));
                proof {
                    match zl_entries(z@, q as int) {
                        Some(rest) => {
                            assert(old_out + (seq![vv] + rest) =~= old_out.push(vv) + rest);
                        },
                        None => {},
                    }
                }
                if q > z.len() {
                    return None;
                }
                p = q;
            },
        }
    }
    if p >= z.len() {
        return None;
    }
    assert(out@.map_values(|x: Vec<u8>| x@) + Seq::<Seq<u8>>::empty() =~= out@.map_values(|x: Vec<u8>| x@));
    Some(out)
}

fn lp_all(l: &Vec<u8>, start: usize) -> (r: Option<Vec<Vec<u8>>>)
    ensures
        match lp_entries(l@, start as int) {
            Some(vs) => r is Some && r.unwrap()@.map_values(|x: Vec<u8>| x@) == vs,
            None => r is None,
        },
{
    let mut out: Vec<Vec<u8>> = Vec::new();
    let mut p: usize = start;
    while p < l.len() && l[p] != 0xff
        invariant
            lp_entries(l@, start as int) == prepend(out@.map_values(|x: Vec<u8>| x@), lp_entries(l@, p as int)),
        decreases l@.len() - p,
    {
        match lp_entry(l, p) {
            None => {
                return None;
            },
            Some((v, q)) => {
                if q <= p {
                    return None;
                }
                let ghost vv = v@;
                let ghost old_out = out@.map_values(|x: Vec<u8>| x@);
                out.push(v);
                assert(out@.map_values(|x: Vec<u8>| x@) =~= old_out.push(vv));
                proof {
                    match lp_entries(l@, q as int) {
                        Some(rest) => {
                            assert(old_out + (seq![vv] + rest) =~= old_out.push(vv) + rest);
                        },
                        None => {},
                    }
                }
                if q > l.len() {
                    return None;
                }
                p = q;
            },
        }
    }
    if p >= l.len() {
        return None;
    }
    assert(out@.map_values(|x: Vec<u8>| x@) + Seq::<Seq<u8>>::empty() =~= out@.map_values(|x: Vec<u8>| x@));
    Some(out)
}

impl RdbReader {
    /// Reads an RDB length.
    pub fn read_length(&mut self) -> (r: Result<u64, Error>)
        ensures
            r is Err ==> r->Err_0 is RdbError,
            final(self).data == old(self).data,
            match length_at(old(self).data@, old(self).pos as int) {
                Some((len, q)) => r is Ok && r.unwrap() as nat == len && final(self).pos as int == q,
                None => r is Err,
            },
    {
        let d = &self.data;
        let p = self.pos;
        if p >= d.len() {
            return Err(Error::RdbError);
        }
        let b = d[p];
        if b < 0x40 {
            self.pos = p + 1;
            Ok((b % 64) as u64)
        } else if b < 0x80 {
            if d.len() - p < 2 {
                return Err(Error::RdbError);
            }
            let v = ((b % 64) as u64) * 256 + d[p + 1] as u64;
            self.pos = p + 2;
            Ok(v)
        } else if b == 0x80 {
            if d.len() - p < 5 {
                return Err(Error::RdbError);
            }
            let v = be_read(d, p + 1, 4);
            self.pos = p + 5;
            Ok(v)
        } else if b == 0x81 {
            if d.len() - p < 9 {
                return Err(Error::RdbError);
            }
            let v = be_read(d, p + 1, 8);
            self.pos = p + 9;
            Ok(v)
        } else {
            Err(Error::RdbError)
        }
    }

    /// Reads an RDB string.
    pub fn read_string(&mut self) -> (r: Result<RedisString, Error>)
        ensures
            r is Err ==> r->Err_0 is RdbError,
            final(self).data == old(self).data,
            match string_at(old(self).data@, old(self).pos as int) {
                Some((s, q)) => r is Ok && r.unwrap()@ == s && final(self).pos as int == q,
                None => r is Err,
            },
    {
        let p = self.pos;
        if p >= self.data.len() {
            return Err(Error::RdbError);
        }
        let b = self.data[p];
        if b >= 0xc0 {
            let n: usize = if b == 0xc0 {
                1
            } else if b == 0xc1 {
                2
            } else {
                4
            };
            if b > 0xc2 || n > self.data.len() - p - 1 {
                return Err(Error::RdbError);
            }
            let u = le_read(&self.data, p + 1, n);
            let half: u64 = if n == 1 {
                0x80
            } else if n == 2 {
                0x8000
            } else {
                0x8000_0000
            };
            let full: i64 = if n == 1 {
                0x100
            } else if n == 2 {
                0x1_0000
            } else {
                0x1_0000_0000
            };
            proof {
                lemma_le_bound(self.data@, p as int + 1, n as nat);
                reveal_with_fuel(pow256, 5);
            }
            let v: i64 = if u >= half {
                u as i64 - full
            } else {
                u as i64
            };
            self.pos = p + 1 + n;
            return Ok(int_text_exec(v));
        }
        let len = match self.read_length() {
            Ok(v) => v,
            Err(_) => return Err(Error::RdbError),
        };
        let q = self.pos;
        if len > (self.data.len() - q) as u64 {
            return Err(Error::RdbError);
        }
        let l = len as usize;
        assert(l as int == len as int);
        let end: usize = q + l;
        let mut out: Vec<u8> = Vec::new();
        let mut i: usize = q;
        while i < end
            invariant
                end == q + l,
                end <= self.data@.len(),
                q <= i <= end,
                out@ == self.data@.subrange(q as int, i as int),
            decreases end - i,
        {
            out.push(self.data[i]);
            assert(out@ =~= self.data@.subrange(q as int, i + 1));
            i = i + 1;
        }
        self.pos = end;
        Ok(out)
    }

    /// Reads a ziplist stored as a string.
    pub fn read_zip_list(&mut self) -> (r: Result<Vec<RedisString>, Error>)
        ensures
            r is Err ==> r->Err_0 is RdbError,
            final(self).data == old(self).data,
            match zip_list_at(old(self).data@, old(self).pos as int) {
                Some((vs, q)) => r is Ok && r.unwrap()@.map_values(|x: Vec<u8>| x@) == vs && final(self).pos as int == q,
                None => r is Err,
            },
    {
        let blob = match self.read_string() {
            Ok(b) => b,
            Err(_) => return Err(Error::RdbError),
        };
        match zl_all(&blob, 10) {
            Some(vs) => Ok(vs),
            None => Err(Error::RdbError),
        }
    }

    /// Reads a listpack stored as a string.
    pub fn read_list_pack(&mut self) -> (r: Result<Vec<RedisString>, Error>)
        ensures
            r is Err ==> r->Err_0 is RdbError,
            final(self).data == old(self).data,
            match list_pack_at(old(self).data@, old(self).pos as int) {
                Some((vs, q)) => r is Ok && r.unwrap()@.map_values(|x: Vec<u8>| x@) == vs && final(self).pos as int == q,
                None => r is Err,
            },
    {
        let blob = match self.read_string() {
            Ok(b) => b,
            Err(_) => return Err(Error::RdbError),
        };
        match lp_all(&blob, 6) {
            Some(vs) => Ok(vs),
            None => Err(Error::RdbError),
        }
    }
}

/// Reads Redis hash objects out of an RDB payload.
pub struct HashParser {}

fn pair_up(list: Vec<RedisString>) -> (r: Result<Vec<(RedisString, RedisString)>, Error>)
    ensures
        r is Err ==> r->Err_0 is RdbError,
        match pairs_of(list@.map_values(|x: Vec<u8>| x@)) {
            Some(ps) => r is Ok && pairs_view(r.unwrap()@) == ps,
            None => r is Err,
        },
{
    let ghost lv = list@.map_values(|x: Vec<u8>| x@);
    let n = list.len();
    if n % 2 == 1 {
        return Err(Error::RdbError);
    }
    let mut rev: Vec<RedisString> = Vec::new();
    let mut src = list;
    while src.len() > 0
        invariant
            lv.len() == n,
            src@.len() + rev@.len() == n,
            forall|j: int| 0 <= j < src@.len() ==> #[trigger] src@[j]@ == lv[j],
            forall|j: int| 0 <= j < rev@.len() ==> #[trigger] rev@[j]@ == lv[n - 1 - j],
        decreases src.len(),
    {
        let x = src.pop().unwrap();
        rev.push(x);
    }
    let mut out: Vec<(RedisString, RedisString)> = Vec::new();
    let mut i: usize = 0;
    while rev.len() >= 2
        invariant
            lv.len() == n,
            n % 2 == 0,
            i + rev@.len() == n,
            i % 2 == 0,
            out@.len() * 2 == i,
            forall|j: int| 0 <= j < rev@.len() ==> #[trigger] rev@[j]@ == lv[n - 1 - j],
            forall|j: int| 0 <= j < out@.len() ==> #[trigger] pairs_view(out@)[j] == (lv[2 * j], lv[2 * j + 1]),
        decreases rev.len(),
    {
        let k = rev.pop().unwrap();
        let v = rev.pop().unwrap();
        let ghost old_out = out@;
        out.push((k, v));
        assert forall|j: int| 0 <= j < out@.len() implies #[trigger] pairs_view(out@)[j] == (lv[2 * j], lv[2 * j + 1]) by {
            if j < old_out.len() {
                assert(pairs_view(out@)[j] == pairs_view(old_out)[j]);
            }
        }
        i = i + 2;
    }
    assert(pairs_view(out@) =~= pairs_of(lv).unwrap());
    Ok(out)
}

impl HashParser {
    /// Reads the hash object of RDB type `type_byte` that starts at the reader's
    /// position; fails on a type that is not a hash encoding this reader knows,
    /// and on the zipmap encoding.
    pub fn load_from_buffer(reader: &mut RdbReader, key: RedisString, type_byte: u8) -> (r: Result<HashObject, Error>)
        ensures
            final(reader).data == old(reader).data,
            r is Err ==> r->Err_0 is RdbError,
            match hash_value_at(old(reader).data@, old(reader).pos as int, type_byte) {
                Some((ps, q)) => r is Ok && r.unwrap().key == key && pairs_view(r.unwrap().value@) == ps && final(reader).pos as int == q,
                None => r is Err,
            },
    {
        let mut obj = HashObject { key, value: Vec::new() };
        let res = if type_byte == RDB_TYPE_HASH {
            Self::read_hash(&mut obj, reader)
        } else if type_byte == RDB_TYPE_HASH_ZIPMAP {
            Self::read_hash_zip_map(&mut obj, reader)
        } else if type_byte == RDB_TYPE_HASH_ZIPLIST {
            Self::read_hash_zip_list(&mut obj, reader)
        } else if type_byte == RDB_TYPE_HASH_LISTPACK {
            Self::read_hash_list_pack(&mut obj, reader)
        } else {
            Err(Error::RdbError)
        };
        match res {
            Ok(()) => {
                assert(pairs_view(obj.value@) =~= Seq::<(Seq<u8>, Seq<u8>)>::empty() + pairs_view(obj.value@));
                Ok(obj)
            },
            Err(_) => Err(Error::RdbError),
        }
    }

    /// Adds the pairs to the object's fields.
    fn add_pairs(obj: &mut HashObject, pairs: Vec<(RedisString, RedisString)>)
        ensures
            final(obj).key == old(obj).key,
            pairs_view(final(obj).value@) == pairs_view(old(obj).value@) + pairs_view(pairs@),
    {
        let mut pairs = pairs;
        let ghost pv = pairs@;
        obj.value.append(&mut pairs);
        assert(pairs_view(obj.value@) =~= pairs_view(old(obj).value@) + pairs_view(pv));
    }

    /// A hash stored as a length and that many field-value string pairs.
    pub fn read_hash(obj: &mut HashObject, reader: &mut RdbReader) -> (r: Result<(), Error>)
        ensures
            final(reader).data == old(reader).data,
            final(obj).key == old(obj).key,
            r is Err ==> r->Err_0 is RdbError && *final(obj) == *old(obj),
            match hash_value_at(old(reader).data@, old(reader).pos as int, RDB_TYPE_HASH) {
                Some((ps, q)) => r is Ok && pairs_view(final(obj).value@) == pairs_view(old(obj).value@) + ps && final(reader).pos as int == q,
                None => r is Err,
            },
    {
        let ghost d = reader.data@;
        let size = match reader.read_length() {
            Ok(v) => v,
            Err(_) => return Err(Error::RdbError),
        };
        let ghost p0 = reader.pos as int;
        let mut pairs: Vec<(RedisString, RedisString)> = Vec::new();
        let mut i: u64 = 0;
        while i < size
            invariant
                reader.data@ == d,
                reader.data == old(reader).data,
                d == old(reader).data@,
                hash_value_at(d, old(reader).pos as int, RDB_TYPE_HASH) == hash_pairs_at(d, p0, size as nat),
                0 <= i <= size,
                hash_pairs_at(d, p0, size as nat) == match hash_pairs_at(d, reader.pos as int, (size - i) as nat) {
                    Some((rest, q)) => Some((pairs_view(pairs@) + rest, q)),
                    None => None::<(Seq<(Seq<u8>, Seq<u8>)>, int)>,
                },
            decreases size - i,
        {
            let key = match reader.read_string() {
                Ok(k) => k,
                Err(_) => return Err(Error::RdbError),
            };
            let value = match reader.read_string() {
                Ok(v) => v,
                Err(_) => return Err(Error::RdbError),
            };
            let ghost old_v = pairs_view(pairs@);
            let ghost kv = (key@, value@);
            pairs.push((key, value));
            assert(pairs_view(pairs@) =~= old_v.push(kv));
            proof {
                match hash_pairs_at(d, reader.pos as int, (size - i - 1) as nat) {
                    Some((rest, q)) => {
                        assert(old_v + (seq![kv] + rest) =~= old_v.push(kv) + rest);
                    },
                    None => {},
                }
            }
            i = i + 1;
        }
        assert(pairs_view(pairs@) + Seq::<(Seq<u8>, Seq<u8>)>::empty() =~= pairs_view(pairs@));
        Self::add_pairs(obj, pairs);
        Ok(())
    }

    /// The zipmap encoding is not read.
    pub fn read_hash_zip_map(_obj: &mut HashObject, _reader: &mut RdbReader) -> (r: Result<(), Error>)
        ensures
            r is Err && r->Err_0 is RdbError,
            *final(_obj) == *old(_obj),
            *final(_reader) == *old(_reader),
    {
        Err(Error::RdbError)
    }

    /// A hash stored as a ziplist of alternating fields and values.
    pub fn read_hash_zip_list(obj: &mut HashObject, reader: &mut RdbReader) -> (r: Result<(), Error>)
        ensures
            final(reader).data == old(reader).data,
            final(obj).key == old(obj).key,
            r is Err ==> r->Err_0 is RdbError && *final(obj) == *old(obj),
            match hash_value_at(old(reader).data@, old(reader).pos as int, RDB_TYPE_HASH_ZIPLIST) {
                Some((ps, q)) => r is Ok && pairs_view(final(obj).value@) == pairs_view(old(obj).value@) + ps && final(reader).pos as int == q,
                None => r is Err,
            },
    {
        let list = match reader.read_zip_list() {
            Ok(l) => l,
            Err(_) => return Err(Error::RdbError),
        };
        match pair_up(list) {
            Ok(pairs) => {
                Self::add_pairs(obj, pairs);
                Ok(())
            },
            Err(_) => Err(Error::RdbError),
        }
    }

    /// A hash stored as a listpack of alternating fields and values.
    pub fn read_hash_list_pack(obj: &mut HashObject, reader: &mut RdbReader) -> (r: Result<(), Error>)
        ensures
            final(reader).data == old(reader).data,
            final(obj).key == old(obj).key,
            r is Err ==> r->Err_0 is RdbError && *final(obj) == *old(obj),
            match hash_value_at(old(reader).data@, old(reader).pos as int, RDB_TYPE_HASH_LISTPACK) {
                Some((ps, q)) => r is Ok && pairs_view(final(obj).value@) == pairs_view(old(obj).value@) + ps && final(reader).pos as int == q,
                None => r is Err,
            },
    {
        let list = match reader.read_list_pack() {
            Ok(l) => l,
            Err(_) => return Err(Error::RdbError),
        };
        match pair_up(list) {
            Ok(pairs) => {
                Self::add_pairs(obj, pairs);
                Ok(())
            },
            Err(_) => Err(Error::RdbError),
        }
    }
}

} // verus!
