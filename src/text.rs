use vstd::prelude::*;
use vstd::string::StrSliceExecFns;

verus! {

/// Whether `s` holds `p` starting at position `i`.
pub open spec fn occurs_at(s: Seq<char>, p: Seq<char>, i: int) -> bool {
    0 <= i && i + p.len() <= s.len() && s.subrange(i, i + p.len()) == p
}

/// Whether `p` occurs in `s`.
pub open spec fn seq_contains(s: Seq<char>, p: Seq<char>) -> bool {
    exists|i: int| occurs_at(s, p, i)
}

/// `s` with every leading copy of `p` removed (`str::trim_start_matches`).
pub open spec fn trim_start_all(s: Seq<char>, p: Seq<char>) -> Seq<char>
    decreases s.len(),
{
    if p.len() > 0 && occurs_at(s, p, 0) {
        trim_start_all(s.subrange(p.len() as int, s.len() as int), p)
    } else {
        s
    }
}

/// `s` with every trailing `c` removed.
pub open spec fn trim_end_char(s: Seq<char>, c: char) -> Seq<char>
    decreases s.len(),
{
    if s.len() > 0 && s.last() == c {
        trim_end_char(s.drop_last(), c)
    } else {
        s
    }
}

/// `s` with every leading and trailing `c` removed.
pub open spec fn trim_char(s: Seq<char>, c: char) -> Seq<char>
    decreases s.len(),
{
    if s.len() > 0 && s[0] == c {
        trim_char(s.drop_first(), c)
    } else {
        trim_end_char(s, c)
    }
}

/// The pieces of `s` between the separators `c` (`str::split` on a char).
pub open spec fn split_char(s: Seq<char>, c: char) -> Seq<Seq<char>>
    decreases s.len(),
{
    if s.len() == 0 {
        seq![Seq::empty()]
    } else {
        let prev = split_char(s.drop_last(), c);
        if s.last() == c {
            prev.push(Seq::empty())
        } else {
            prev.update(prev.len() - 1, prev.last().push(s.last()))
        }
    }
}

proof fn lemma_split_nonempty(s: Seq<char>, c: char)
    ensures
        split_char(s, c).len() > 0,
    decreases s.len(),
{
    if s.len() > 0 {
        lemma_split_nonempty(s.drop_last(), c);
    }
}

fn chars_of(s: &str) -> (r: Vec<char>)
    ensures
        r@ == s@,
{
    let n = s.unicode_len();
    let mut out: Vec<char> = Vec::new();
    let mut i: usize = 0;
    while i < n
        invariant
            n == s@.len(),
            0 <= i <= n,
            out@ == s@.take(i as int),
        decreases n - i,
    {
        out.push(s.get_char(i));
        assert(out@ =~= s@.take(i + 1));
        i = i + 1;
    }
    assert(s@.take(n as int) =~= s@);
    out
}

fn occurs_at_exec(s: &Vec<char>, p: &Vec<char>, i: usize) -> (r: bool)
    ensures
        r == occurs_at(s@, p@, i as int),
{
    let n: usize = s.len();
    if i > s.len() || p.len() > s.len() - i {
        return false;
    }
    let mut k: usize = 0;
    while k < p.len()
        invariant
            n == s@.len(),
            i + p@.len() <= s@.len(),
            0 <= k <= p@.len(),
            forall|j: int| 0 <= j < k ==> s@[i + j] == p@[j],
        decreases p.len() - k,
    {
        assert(i + k < s@.len());
        if s[i + k] != p[k] {
            assert(s@.subrange(i as int, i + p@.len())[k as int] != p@[k as int]);
            return false;
        }
        k = k + 1;
    }
    assert(s@.subrange(i as int, i + p@.len()) =~= p@);
    true
}

/// Whether `p` occurs in `s` (`str::contains`).
pub fn str_contains(s: &str, p: &str) -> (r: bool)
    ensures
        r == seq_contains(s@, p@),
{
    let sv = chars_of(s);
    let pv = chars_of(p);
    let mut i: usize = 0;
    while i < sv.len()
        invariant
            sv@ == s@,
            pv@ == p@,
            0 <= i <= sv@.len(),
            forall|j: int| 0 <= j < i ==> !occurs_at(s@, p@, j),
        decreases sv.len() - i,
    {
        if occurs_at_exec(&sv, &pv, i) {
            return true;
        }
        i = i + 1;
    }
    if occurs_at_exec(&sv, &pv, i) {
        return true;
    }
    proof {
        assert forall|j: int| !occurs_at(s@, p@, j) by {
            if 0 <= j <= i {
            }
        }
    }
    false
}

/// Whether two strings hold the same characters.
pub fn str_eq(a: &str, b: &str) -> (r: bool)
    ensures
        r == (a@ == b@),
{
    let av = chars_of(a);
    let bv = chars_of(b);
    if av.len() != bv.len() {
        return false;
    }
    let mut i: usize = 0;
    while i < av.len()
        invariant
            av@ == a@,
            bv@ == b@,
            av@.len() == bv@.len(),
            0 <= i <= av@.len(),
            forall|j: int| 0 <= j < i ==> av@[j] == bv@[j],
        decreases av.len() - i,
    {
        if av[i] != bv[i] {
            return false;
        }
        i = i + 1;
    }
    assert(av@ =~= bv@);
    true
}

fn string_of(s: &str, from: usize, to: usize) -> (r: String)
    requires
        from <= to <= s@.len(),
    ensures
        r@ == s@.subrange(from as int, to as int),
{
    s.substring_char(from, to).to_owned()
}

/// Removes leading copies of `p` (`str::trim_start_matches`), trailing `end`
/// characters, and splits the rest at `sep`, trimming `quote` from each piece.
/// This reads the item list of a column type such as `enum('a','b')`.
pub fn type_items(s: &str, p: &str, end: char, sep: char, quote: char) -> (r: Vec<String>)
    ensures
        r@.len() == split_char(trim_end_char(trim_start_all(s@, p@), end), sep).len(),
        forall|i: int|
            0 <= i < r@.len() ==> (#[trigger] r@[i])@ == trim_char(split_char(trim_end_char(trim_start_all(s@, p@), end), sep)[i], quote),
{
    let sv = chars_of(s);
    let pv = chars_of(p);
    // leading copies of the prefix
    let mut start: usize = 0;
    assert(s@.subrange(0, s@.len() as int) =~= s@);
    while pv.len() > 0 && occurs_at_exec(&sv, &pv, start)
        invariant
            sv@ == s@,
            pv@ == p@,
            start <= sv@.len(),
            trim_start_all(s@, p@) == trim_start_all(s@.subrange(start as int, s@.len() as int), p@),
        decreases sv.len() - start,
    {
        proof {
            let rest = s@.subrange(start as int, s@.len() as int);
            assert(occurs_at(rest, p@, 0)) by {
                assert(rest.subrange(0, p@.len() as int) =~= s@.subrange(start as int, start + p@.len()));
            }
            assert(rest.subrange(p@.len() as int, rest.len() as int) =~= s@.subrange(start + p@.len(), s@.len() as int));
        }
        start = start + pv.len();
    }
    proof {
        let rest = s@.subrange(start as int, s@.len() as int);
        if pv@.len() > 0 {
            assert(!occurs_at(rest, p@, 0)) by {
                if occurs_at(rest, p@, 0) {
                    assert(rest.subrange(0, p@.len() as int) =~= s@.subrange(start as int, start + p@.len()));
                }
            }
        }
    }
    // trailing end characters
    let mut stop: usize = sv.len();
    while stop > start && sv[stop - 1] == end
        invariant
            sv@ == s@,
            start <= stop <= sv@.len(),
            trim_end_char(trim_start_all(s@, p@), end) == trim_end_char(s@.subrange(start as int, stop as int), end),
        decreases stop,
    {
        assert(s@.subrange(start as int, stop as int).drop_last() =~= s@.subrange(start as int, stop - 1));
        stop = stop - 1;
    }
    let ghost body = s@.subrange(start as int, stop as int);
    assert(trim_end_char(body, end) == body);
    // pieces between separators
    let mut pieces: Vec<(usize, usize)> = Vec::new();
    let mut piece_start: usize = start;
    let mut i: usize = start;
    proof {
        assert(s@.subrange(start as int, start as int) =~= Seq::<char>::empty());
    }
    while i < stop
        invariant
            sv@ == s@,
            start <= piece_start <= i <= stop <= sv@.len(),
            ({
                let sp = split_char(s@.subrange(start as int, i as int), sep);
                &&& sp.len() == pieces@.len() + 1
                &&& sp.last() == s@.subrange(piece_start as int, i as int)
                &&& forall|j: int|
                    0 <= j < pieces@.len() ==> (#[trigger] pieces@[j]).0 <= pieces@[j].1 <= stop && sp[j] == s@.subrange(
                        pieces@[j].0 as int,
                        pieces@[j].1 as int,
                    )
            }),
        decreases stop - i,
    {
        let ghost prev = split_char(s@.subrange(start as int, i as int), sep);
        assert(s@.subrange(start as int, i + 1).drop_last() =~= s@.subrange(start as int, i as int));
        assert(s@.subrange(start as int, i + 1).last() == s@[i as int]);
        proof {
            lemma_split_nonempty(s@.subrange(start as int, i as int), sep);
        }
        if sv[i] == sep {
            pieces.push((piece_start, i));
            piece_start = i + 1;
            assert(s@.subrange(piece_start as int, i + 1) =~= Seq::<char>::empty());
        } else {
            assert(s@.subrange(piece_start as int, i + 1) =~= s@.subrange(piece_start as int, i as int).push(s@[i as int]));
        }
        i = i + 1;
    }
    pieces.push((piece_start, stop));
    let ghost sp = split_char(body, sep);
    // each piece without its quotes
    let mut out: Vec<String> = Vec::new();
    let mut k: usize = 0;
    while k < pieces.len()
        invariant
            sv@ == s@,
            stop <= sv@.len(),
            sp.len() == pieces@.len(),
            forall|j: int|
                0 <= j < pieces@.len() ==> (#[trigger] pieces@[j]).0 <= pieces@[j].1 <= stop && sp[j] == s@.subrange(
                    pieces@[j].0 as int,
                    pieces@[j].1 as int,
                ),
            out@.len() == k,
            k <= pieces@.len(),
            forall|j: int| 0 <= j < k ==> (#[trigger] out@[j])@ == trim_char(sp[j], quote),
        decreases pieces.len() - k,
    {
        let (a, b) = pieces[k];
        let mut lo: usize = a;
        while lo < b && sv[lo] == quote
            invariant
                sv@ == s@,
                a <= lo <= b <= sv@.len(),
                trim_char(s@.subrange(a as int, b as int), quote) == trim_char(s@.subrange(lo as int, b as int), quote),
            decreases b - lo,
        {
            assert(s@.subrange(lo as int, b as int).drop_first() =~= s@.subrange(lo + 1, b as int));
            lo = lo + 1;
        }
        assert(lo == b || s@.subrange(lo as int, b as int)[0] != quote);
        let mut hi: usize = b;
        while hi > lo && sv[hi - 1] == quote
            invariant
                sv@ == s@,
                lo <= hi <= b <= sv@.len(),
                trim_char(s@.subrange(a as int, b as int), quote) == trim_end_char(s@.subrange(lo as int, hi as int), quote),
            decreases hi,
        {
            assert(s@.subrange(lo as int, hi as int).drop_last() =~= s@.subrange(lo as int, hi - 1));
            hi = hi - 1;
        }
        out.push(string_of(s, lo, hi));
        k = k + 1;
    }
    out
}

} // verus!
