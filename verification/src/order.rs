//! Total orders on keys, so that maps and sets can keep their keys sorted.

use vstd::prelude::*;
use vstd::string::StrSliceExecFns;

verus! {

/// The result of comparing two keys.
#[derive(Clone, Copy, Debug, PartialEq, Eq)]
pub enum Order3 {
    Less,
    Equal,
    Greater,
}

/// Whether `lt` is a strict total order.
pub open spec fn strict_total_order<T>(lt: spec_fn(T, T) -> bool) -> bool {
    &&& forall|a: T| !#[trigger] lt(a, a)
    &&& forall|a: T, b: T, c: T| #[trigger] lt(a, b) && #[trigger] lt(b, c) ==> lt(a, c)
    &&& forall|a: T, b: T| a == b || #[trigger] lt(a, b) || #[trigger] lt(b, a)
}

/// Lexicographic order of sequences, by the element order `lt`.
pub open spec fn lex_lt<T>(a: Seq<T>, b: Seq<T>, lt: spec_fn(T, T) -> bool) -> bool
    decreases a.len(),
{
    if a.len() == 0 {
        b.len() > 0
    } else if b.len() == 0 {
        false
    } else if lt(a[0], b[0]) {
        true
    } else if a[0] == b[0] {
        lex_lt(a.drop_first(), b.drop_first(), lt)
    } else {
        false
    }
}

/// Lexicographic order is a strict total order whenever the element order is.
pub proof fn lemma_lex_order<T>(lt: spec_fn(T, T) -> bool)
    requires
        strict_total_order(lt),
    ensures
        strict_total_order(|a: Seq<T>, b: Seq<T>| lex_lt(a, b, lt)),
{
    let f = |a: Seq<T>, b: Seq<T>| lex_lt(a, b, lt);
    assert forall|a: Seq<T>| !#[trigger] f(a, a) by {
        lemma_lex_irreflexive(a, lt);
    }
    assert forall|a: Seq<T>, b: Seq<T>, c: Seq<T>| #[trigger] f(a, b) && #[trigger] f(b, c) implies f(
        a,
        c,
    ) by {
        lemma_lex_transitive(a, b, c, lt);
    }
    assert forall|a: Seq<T>, b: Seq<T>| a == b || #[trigger] f(a, b) || #[trigger] f(b, a) by {
        lemma_lex_total(a, b, lt);
    }
}

proof fn lemma_lex_irreflexive<T>(a: Seq<T>, lt: spec_fn(T, T) -> bool)
    requires
        strict_total_order(lt),
    ensures
        !lex_lt(a, a, lt),
    decreases a.len(),
{
    if a.len() > 0 {
        assert(!lt(a[0], a[0]));
        lemma_lex_irreflexive(a.drop_first(), lt);
    }
}

proof fn lemma_lex_transitive<T>(a: Seq<T>, b: Seq<T>, c: Seq<T>, lt: spec_fn(T, T) -> bool)
    requires
        strict_total_order(lt),
        lex_lt(a, b, lt),
        lex_lt(b, c, lt),
    ensures
        lex_lt(a, c, lt),
    decreases a.len(),
{
    if a.len() > 0 && b.len() > 0 && c.len() > 0 {
        if lt(a[0], b[0]) && lt(b[0], c[0]) {
            assert(lt(a[0], c[0]));
        } else if a[0] == b[0] && b[0] == c[0] {
            lemma_lex_transitive(a.drop_first(), b.drop_first(), c.drop_first(), lt);
        }
    }
}

proof fn lemma_lex_total<T>(a: Seq<T>, b: Seq<T>, lt: spec_fn(T, T) -> bool)
    requires
        strict_total_order(lt),
    ensures
        a == b || lex_lt(a, b, lt) || lex_lt(b, a, lt),
    decreases a.len(),
{
    if a.len() > 0 && b.len() > 0 {
        assert(a[0] == b[0] || lt(a[0], b[0]) || lt(b[0], a[0]));
        if a[0] == b[0] {
            lemma_lex_total(a.drop_first(), b.drop_first(), lt);
            if a.drop_first() == b.drop_first() {
                assert(a =~= seq![a[0]] + a.drop_first());
                assert(b =~= seq![b[0]] + b.drop_first());
            }
        }
    } else if a.len() == 0 && b.len() == 0 {
        assert(a =~= b);
    }
}

/// Comparing two sequences after a common prefix of length `i`.
pub proof fn lemma_lex_skip<T>(a: Seq<T>, b: Seq<T>, i: int, lt: spec_fn(T, T) -> bool)
    requires
        strict_total_order(lt),
        0 <= i <= a.len(),
        i <= b.len(),
        a.subrange(0, i) == b.subrange(0, i),
    ensures
        lex_lt(a, b, lt) == lex_lt(a.subrange(i, a.len() as int), b.subrange(i, b.len() as int), lt),
    decreases i,
{
    if i > 0 {
        assert(a[0] == a.subrange(0, i)[0]);
        assert(b[0] == b.subrange(0, i)[0]);
        assert(!lt(a[0], b[0]));
        let a1 = a.drop_first();
        let b1 = b.drop_first();
        assert(a1.subrange(0, i - 1) =~= a.subrange(0, i).drop_first());
        assert(b1.subrange(0, i - 1) =~= b.subrange(0, i).drop_first());
        lemma_lex_skip(a1, b1, i - 1, lt);
        assert(a1.subrange(i - 1, a1.len() as int) =~= a.subrange(i, a.len() as int));
        assert(b1.subrange(i - 1, b1.len() as int) =~= b.subrange(i, b.len() as int));
    } else {
        assert(a.subrange(0, a.len() as int) =~= a);
        assert(b.subrange(0, b.len() as int) =~= b);
    }
}

/// Order of characters by their code point, which is also the order of
/// their UTF-8 encodings.
pub open spec fn char_lt(a: char, b: char) -> bool {
    (a as u32) < (b as u32)
}

/// Order of strings: lexicographic by characters.
pub open spec fn str_lt(a: Seq<char>, b: Seq<char>) -> bool {
    lex_lt(a, b, |x: char, y: char| char_lt(x, y))
}

/// The character order is a strict total order.
pub proof fn lemma_char_order()
    ensures
        strict_total_order(|x: char, y: char| char_lt(x, y)),
{
    assert forall|a: char, b: char| a == b || char_lt(a, b) || char_lt(b, a) by {
        if (a as u32) == (b as u32) {
            vstd::utf8::char_u32_cast(a, a as u32);
            vstd::utf8::char_u32_cast(b, b as u32);
        }
    }
}

/// The string order is a strict total order.
pub proof fn lemma_str_order()
    ensures
        strict_total_order(|a: Seq<char>, b: Seq<char>| str_lt(a, b)),
{
    lemma_char_order();
    lemma_lex_order(|x: char, y: char| char_lt(x, y));
    let f = |a: Seq<char>, b: Seq<char>| lex_lt(a, b, |x: char, y: char| char_lt(x, y));
    let g = |a: Seq<char>, b: Seq<char>| str_lt(a, b);
    assert(f =~= g);
}

/// Compares two strings by their characters.
pub fn compare_str(a: &str, b: &str) -> (r: Order3)
    ensures
        r == Order3::Less <==> str_lt(a@, b@),
        r == Order3::Equal <==> a@ == b@,
        r == Order3::Greater <==> str_lt(b@, a@),
{
    proof {
        lemma_char_order();
    }
    let n = a.unicode_len();
    let m = b.unicode_len();
    let ghost lt = |x: char, y: char| char_lt(x, y);
    let mut i: usize = 0;
    while i < n && i < m
        invariant
            n == a@.len(),
            m == b@.len(),
            i <= n,
            i <= m,
            a@.subrange(0, i as int) == b@.subrange(0, i as int),
            lt == (|x: char, y: char| char_lt(x, y)),
        decreases n - i,
    {
        let x = a.get_char(i);
        let y = b.get_char(i);
        if x != y {
            proof {
                lemma_char_order();
                lemma_lex_skip(a@, b@, i as int, lt);
                lemma_lex_skip(b@, a@, i as int, lt);
                let ra = a@.subrange(i as int, n as int);
                let rb = b@.subrange(i as int, m as int);
                assert(ra[0] == x && rb[0] == y);
                lemma_char_order();
                assert(char_lt(x, y) || char_lt(y, x));
            }
            if (x as u32) < (y as u32) {
                return Order3::Less;
            } else {
                return Order3::Greater;
            }
        }
        assert(a@.subrange(0, i + 1) =~= a@.subrange(0, i as int).push(x));
        assert(b@.subrange(0, i + 1) =~= b@.subrange(0, i as int).push(y));
        i = i + 1;
    }
    proof {
        lemma_lex_skip(a@, b@, i as int, lt);
        lemma_lex_skip(b@, a@, i as int, lt);
    }
    if n == m {
        assert(a@ =~= a@.subrange(0, i as int));
        assert(b@ =~= b@.subrange(0, i as int));
        Order3::Equal
    } else if n < m {
        assert(a@ != b@);
        Order3::Less
    } else {
        assert(a@ != b@);
        Order3::Greater
    }
}

/// A key that maps and sets can keep in order.
pub trait SortKey: View + Sized {
    /// The order of keys, by their views.
    spec fn key_lt(a: Self::V, b: Self::V) -> bool;

    /// `key_lt` is a strict total order.
    proof fn lemma_key_order()
        ensures
            forall|a: Self::V| !#[trigger] Self::key_lt(a, a),
            forall|a: Self::V, b: Self::V, c: Self::V|
                #[trigger] Self::key_lt(a, b) && #[trigger] Self::key_lt(b, c) ==> Self::key_lt(a, c),
            forall|a: Self::V, b: Self::V|
                a == b || #[trigger] Self::key_lt(a, b) || #[trigger] Self::key_lt(b, a),
    ;

    /// Compares two keys.
    fn key_order(&self, other: &Self) -> (r: Order3)
        ensures
            r == Order3::Less <==> Self::key_lt(self@, other@),
            r == Order3::Equal <==> self@ == other@,
            r == Order3::Greater <==> Self::key_lt(other@, self@),
    ;

    /// A copy of the key.
    fn key_clone(&self) -> (r: Self)
        ensures
            r@ == self@,
    ;
}

impl SortKey for String {
    open spec fn key_lt(a: Seq<char>, b: Seq<char>) -> bool {
        str_lt(a, b)
    }

    proof fn lemma_key_order() {
        lemma_str_order();
        let f = |a: Seq<char>, b: Seq<char>| str_lt(a, b);
        assert forall|a: Seq<char>| !#[trigger] str_lt(a, a) by {
            assert(!f(a, a));
        }
        assert forall|a: Seq<char>, b: Seq<char>, c: Seq<char>|
            #[trigger] str_lt(a, b) && #[trigger] str_lt(b, c) implies str_lt(a, c) by {
            assert(f(a, b) && f(b, c) ==> f(a, c));
        }
        assert forall|a: Seq<char>, b: Seq<char>|
            a == b || #[trigger] str_lt(a, b) || #[trigger] str_lt(b, a) by {
            assert(a == b || f(a, b) || f(b, a));
        }
    }

    fn key_order(&self, other: &Self) -> (r: Order3) {
        compare_str(self.as_str(), other.as_str())
    }

    fn key_clone(&self) -> (r: Self) {
        self.clone()
    }
}

impl SortKey for u32 {
    open spec fn key_lt(a: u32, b: u32) -> bool {
        a < b
    }

    proof fn lemma_key_order() {
    }

    fn key_order(&self, other: &Self) -> (r: Order3) {
        if *self < *other {
            Order3::Less
        } else if *self == *other {
            Order3::Equal
        } else {
            Order3::Greater
        }
    }

    fn key_clone(&self) -> (r: Self) {
        *self
    }
}

} // verus!
