//! Character-level helpers: string comparison and decimal numbers.
use vstd::prelude::*;

verus! {

broadcast use vstd::string::group_string_axioms;

/// The characters of `s`, in order.
pub fn chars_of(s: &str) -> (r: Vec<char>)
    ensures
        r@ == s@,
{
    let mut out: Vec<char> = Vec::new();
    for c in it: s.chars()
        invariant
            out@ == it.seq().take(it.index() as int),
    {
        out.push(c);
    }
    out
}


/// Whether `a` and `b` hold the same characters.
pub fn same_text(a: &str, b: &str) -> (r: bool)
    ensures
        r == (a@ == b@),
{
    let x = chars_of(a);
    let y = chars_of(b);
    if x.len() != y.len() {
        return false;
    }
    let mut i: usize = 0;
    while i < x.len()
        invariant
            x@ == a@,
            y@ == b@,
            x@.len() == y@.len(),
            i <= x@.len(),
            forall|j: int| 0 <= j < i ==> x@[j] == y@[j],
        decreases x.len() - i,
    {
        if x[i] != y[i] {
            return false;
        }
        i = i + 1;
    }
    assert(x@ =~= y@);
    true
}

pub open spec fn is_digit(c: char) -> bool {
    '0' <= c <= '9'
}

pub open spec fn digit_value(c: char) -> nat {
    (c as u32 - '0' as u32) as nat
}

pub open spec fn all_digits(s: Seq<char>) -> bool {
    forall|i: int| 0 <= i < s.len() ==> is_digit(#[trigger] s[i])
}

/// The number that the digits `s` write in decimal.
pub open spec fn digits_value(s: Seq<char>) -> nat
    decreases s.len(),
{
    if s.len() == 0 {
        0
    } else {
        digits_value(s.drop_last()) * 10 + digit_value(s.last())
    }
}

/// The integer that `s` writes in decimal: one or more digits, with an
/// optional leading `+` or `-`.
pub open spec fn decimal(s: Seq<char>) -> Option<int> {
    if s.len() > 0 && (s[0] == '-' || s[0] == '+') {
        let d = s.drop_first();
        if d.len() > 0 && all_digits(d) {
            Some(if s[0] == '-' { -digits_value(d) } else { digits_value(d) as int })
        } else {
            None
        }
    } else if s.len() > 0 && all_digits(s) {
        Some(digits_value(s) as int)
    } else {
        None
    }
}

/// The integer that `s` writes, when it lies in `[lo, hi]`; for a range
/// without negative numbers a leading `-` is refused outright.
pub open spec fn decimal_in(s: Seq<char>, lo: int, hi: int) -> Option<int> {
    if lo >= 0 && s.len() > 0 && s[0] == '-' {
        None
    } else {
        match decimal(s) {
            Some(v) => if lo <= v <= hi { Some(v) } else { None },
            None => None,
        }
    }
}

proof fn lemma_digits_prefix(s: Seq<char>, i: int)
    requires
        0 <= i <= s.len(),
        all_digits(s),
    ensures
        digits_value(s.take(i)) <= digits_value(s),
    decreases s.len() - i,
{
    if i < s.len() {
        lemma_digits_prefix(s, i + 1);
        assert(s.take(i + 1).drop_last() =~= s.take(i));
    } else {
        assert(s.take(i) =~= s);
    }
}

const DECIMAL_LIMIT: u64 = 0x1_0000_0000;

/// The integer that `s` writes in decimal, when it lies in `[lo, hi]`.
pub fn parse_decimal(s: &Vec<char>, lo: i64, hi: i64) -> (r: Option<i64>)
    requires
        -0x1_0000_0000 <= lo,
        hi <= 0x1_0000_0000,
    ensures
        r matches Some(v) ==> decimal_in(s@, lo as int, hi as int) == Some(v as int),
        r is None ==> decimal_in(s@, lo as int, hi as int) is None,
{
    let n = s.len();
    let mut start: usize = 0;
    let mut negative = false;
    if n > 0 && (s[0] == '-' || s[0] == '+') {
        negative = s[0] == '-';
        start = 1;
    }
    if start >= n || (negative && lo >= 0) {
        return None;
    }
    let ghost d = s@.subrange(start as int, n as int);
    proof {
        if start == 1 {
            assert(d =~= s@.drop_first());
        } else {
            assert(d =~= s@);
        }
    }
    let mut acc: u64 = 0;
    let mut i: usize = start;
    while i < n
        invariant
            start <= i <= n,
            n == s@.len(),
            -0x1_0000_0000 <= lo,
            hi <= 0x1_0000_0000,
            d == s@.subrange(start as int, n as int),
            start == 1 ==> d == s@.drop_first(),
            start == 0 ==> d == s@,
            start == 1 <==> s@.len() > 0 && (s@[0] == '-' || s@[0] == '+'),
            start <= 1,
            negative == (start == 1 && s@[0] == '-'),
            acc as nat == digits_value(d.take(i - start)),
            acc <= DECIMAL_LIMIT,
            forall|j: int| start <= j < i ==> is_digit(#[trigger] s@[j]),
        decreases n - i,
    {
        let c = s[i];
        if !('0' <= c && c <= '9') {
            proof {
                assert(!is_digit(d[i - start]));
            }
            return None;
        }
        let next: u64 = acc * 10 + (c as u32 - '0' as u32) as u64;
        proof {
            assert(d.take(i + 1 - start).drop_last() =~= d.take(i - start));
            assert(d.take(i + 1 - start).last() == c);
        }
        if next > DECIMAL_LIMIT {
            proof {
                assert(digits_value(d.take(i + 1 - start)) == next);
                if all_digits(d) {
                    lemma_digits_prefix(d, i + 1 - start);
                    assert(digits_value(d) > DECIMAL_LIMIT);
                }
            }
            return None;
        }
        acc = next;
        i = i + 1;
    }
    proof {
        assert(d.take(n - start) =~= d);
        assert(all_digits(d));
    }
    let v: i64 = if negative { -(acc as i64) } else { acc as i64 };
    if lo <= v && v <= hi {
        Some(v)
    } else {
        None
    }
}


/// The pieces of `s` between single spaces; an empty `s` is one empty piece.
pub open spec fn space_pieces(s: Seq<char>) -> Seq<Seq<char>>
    decreases s.len(),
{
    if s.len() == 0 {
        seq![Seq::empty()]
    } else {
        let p = space_pieces(s.drop_last());
        if s.last() == ' ' {
            p.push(Seq::empty())
        } else {
            p.update(p.len() - 1, p.last().push(s.last()))
        }
    }
}

proof fn lemma_space_pieces_nonempty(s: Seq<char>)
    ensures
        space_pieces(s).len() >= 1,
    decreases s.len(),
{
    if s.len() > 0 {
        lemma_space_pieces_nonempty(s.drop_last());
    }
}

/// The integers of a space-separated list, each in `[lo, hi]`; empty text is
/// the empty list.
pub open spec fn id_list(s: Seq<char>, lo: int, hi: int) -> Option<Seq<int>> {
    let p = space_pieces(s);
    if s.len() == 0 {
        Some(Seq::empty())
    } else if forall|j: int| 0 <= j < p.len() ==> decimal_in(#[trigger] p[j], lo, hi) is Some {
        Some(Seq::new(p.len(), |j: int| decimal_in(p[j], lo, hi)->0))
    } else {
        None
    }
}

/// An optional integer as an optional `i64`.
pub open spec fn narrowed(o: Option<int>) -> Option<i64> {
    match o {
        Some(v) => Some(v as i64),
        None => None,
    }
}

/// Reads a space-separated list of integers, each in `[lo, hi]`.
pub fn parse_id_list(text: &str, lo: i64, hi: i64) -> (r: Option<Vec<i64>>)
    requires
        -0x1_0000_0000 <= lo,
        hi <= 0x1_0000_0000,
    ensures
        r matches Some(v) ==> id_list(text@, lo as int, hi as int) == Some(v@.map_values(|x: i64| x as int)),
        r is None ==> id_list(text@, lo as int, hi as int) is None,
{
    let s = chars_of(text);
    if s.len() == 0 {
        let empty: Vec<i64> = Vec::new();
        proof {
            assert(empty@.map_values(|x: i64| x as int) =~= Seq::<int>::empty());
        }
        return Some(empty);
    }
    let mut parsed: Vec<Option<i64>> = Vec::new();
    let mut cur: Vec<char> = Vec::new();
    let mut i: usize = 0;
    proof {
        assert(s@.take(0) =~= Seq::<char>::empty());
    }
    while i < s.len()
        invariant
            s@ == text@,
            i <= s@.len(),
            -0x1_0000_0000 <= lo,
            hi <= 0x1_0000_0000,
            space_pieces(s@.take(i as int)).len() == parsed@.len() + 1,
            cur@ == space_pieces(s@.take(i as int)).last(),
            forall|j: int| 0 <= j < parsed@.len() ==>
                #[trigger] parsed@[j] == narrowed(decimal_in(space_pieces(s@.take(i as int))[j], lo as int, hi as int)),
        decreases s.len() - i,
    {
        let ghost before = space_pieces(s@.take(i as int));
        proof {
            assert(s@.take(i + 1).drop_last() =~= s@.take(i as int));
            lemma_space_pieces_nonempty(s@.take(i as int));
        }
        if s[i] == ' ' {
            let p = parse_decimal(&cur, lo, hi);
            parsed.push(p);
            cur = Vec::new();
            proof {
                assert(cur@ =~= Seq::<char>::empty());
            }
        } else {
            cur.push(s[i]);
        }
        i = i + 1;
        proof {
            let after = space_pieces(s@.take(i as int));
            assert forall|j: int| 0 <= j < parsed@.len() implies
                #[trigger] parsed@[j] == narrowed(decimal_in(after[j], lo as int, hi as int)) by {
                assert(after[j] == before[j]);
            }
        }
    }
    let last = parse_decimal(&cur, lo, hi);
    parsed.push(last);
    proof {
        assert(s@.take(s@.len() as int) =~= s@);
    }
    let ghost pieces = space_pieces(s@);
    let mut out: Vec<i64> = Vec::new();
    let mut k: usize = 0;
    while k < parsed.len()
        invariant
            s@ == text@,
            s@.len() > 0,
            pieces == space_pieces(s@),
            pieces.len() == parsed@.len(),
            k <= parsed@.len(),
            forall|j: int| 0 <= j < parsed@.len() ==>
                #[trigger] parsed@[j] == narrowed(decimal_in(pieces[j], lo as int, hi as int)),
            out@.len() == k,
            forall|j: int| 0 <= j < k ==> decimal_in(pieces[j], lo as int, hi as int) == Some(#[trigger] out@[j] as int),
        decreases parsed.len() - k,
    {
        match parsed[k] {
            Some(v) => {
                out.push(v);
            },
            None => {
                proof {
                    assert(decimal_in(pieces[k as int], lo as int, hi as int) is None);
                }
                return None;
            },
        }
        k = k + 1;
    }
    proof {
        assert forall|j: int| 0 <= j < pieces.len() implies decimal_in(#[trigger] pieces[j], lo as int, hi as int) is Some by {
            assert(decimal_in(pieces[j], lo as int, hi as int) == Some(out@[j] as int));
        }
        assert(out@.map_values(|x: i64| x as int) =~= Seq::new(pieces.len(), |j: int| decimal_in(pieces[j], lo as int, hi as int)->0));
    }
    Some(out)
}

} // verus!
