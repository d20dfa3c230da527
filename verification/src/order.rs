use vstd::prelude::*;

verus! {

/// Strict lexicographic order on sequences of integers: `a` comes before `b`
/// when `a` is a proper prefix of `b`, or at the first position where they
/// differ `a` holds the smaller element.
pub open spec fn lex_lt(a: Seq<int>, b: Seq<int>) -> bool
    decreases a.len(),
{
    if a.len() == 0 {
        b.len() > 0
    } else if b.len() == 0 {
        false
    } else if a[0] < b[0] {
        true
    } else if a[0] == b[0] {
        lex_lt(a.drop_first(), b.drop_first())
    } else {
        false
    }
}

pub proof fn lemma_lex_irreflexive(a: Seq<int>)
    ensures
        !lex_lt(a, a),
    decreases a.len(),
{
    if a.len() > 0 {
        lemma_lex_irreflexive(a.drop_first());
    }
}

pub proof fn lemma_lex_transitive(a: Seq<int>, b: Seq<int>, c: Seq<int>)
    requires
        lex_lt(a, b),
        lex_lt(b, c),
    ensures
        lex_lt(a, c),
    decreases a.len(),
{
    if a.len() > 0 && b.len() > 0 && c.len() > 0 {
        if a[0] == b[0] && b[0] == c[0] {
            lemma_lex_transitive(a.drop_first(), b.drop_first(), c.drop_first());
        }
    }
}

pub proof fn lemma_lex_total(a: Seq<int>, b: Seq<int>)
    ensures
        a =~= b || lex_lt(a, b) || lex_lt(b, a),
    decreases a.len(),
{
    if a.len() > 0 && b.len() > 0 && a[0] == b[0] {
        lemma_lex_total(a.drop_first(), b.drop_first());
        if a.drop_first() =~= b.drop_first() {
            assert(a =~= seq![a[0]] + a.drop_first());
            assert(b =~= seq![b[0]] + b.drop_first());
        }
    }
}

} // verus!

verus! {

/// Dropping a common prefix does not change the lexicographic comparison.
pub proof fn lemma_lex_skip(a: Seq<int>, b: Seq<int>, i: int)
    requires
        0 <= i <= a.len(),
        i <= b.len(),
        a.take(i) =~= b.take(i),
    ensures
        lex_lt(a, b) == lex_lt(a.skip(i), b.skip(i)),
    decreases i,
{
    if i > 0 {
        assert(a[0] == a.take(i)[0]);
        assert(b[0] == b.take(i)[0]);
        assert(a.drop_first().take(i - 1) =~= a.take(i).drop_first());
        assert(b.drop_first().take(i - 1) =~= b.take(i).drop_first());
        lemma_lex_skip(a.drop_first(), b.drop_first(), i - 1);
        assert(a.drop_first().skip(i - 1) =~= a.skip(i));
        assert(b.drop_first().skip(i - 1) =~= b.skip(i));
    } else {
        assert(a.skip(0) =~= a);
        assert(b.skip(0) =~= b);
    }
}

/// The three outcomes of comparing two keys.
#[derive(Clone, Copy, PartialEq, Eq, Structural, Debug)]
pub enum KeyOrder {
    Less,
    Equal,
    Greater,
}

/// A key of a `SortedMap`: its view is what the map is keyed by, and
/// `rank` gives the integer sequence whose lexicographic order is the
/// order of the keys.
pub trait MapKey: View + Sized {
    spec fn rank(v: Self::V) -> Seq<int>;

    proof fn lemma_rank_injective(a: Self::V, b: Self::V)
        requires
            Self::rank(a) == Self::rank(b),
        ensures
            a == b,
    ;

    fn compare_key(&self, other: &Self) -> (r: KeyOrder)
        ensures
            r == KeyOrder::Less <==> lex_lt(Self::rank(self@), Self::rank(other@)),
            r == KeyOrder::Greater <==> lex_lt(Self::rank(other@), Self::rank(self@)),
            r == KeyOrder::Equal <==> self@ == other@,
    ;

    fn clone_key(&self) -> (r: Self)
        ensures
            r@ == self@,
    ;
}

/// The code points of a character sequence, as integers.
pub open spec fn char_ranks(s: Seq<char>) -> Seq<int> {
    Seq::new(s.len(), |i: int| s[i] as int)
}

/// Compares two strings the way `Ord for str` does (by code point, which is
/// also the order of their UTF-8 bytes).
pub fn compare_str(a: &str, b: &str) -> (r: KeyOrder)
    ensures
        r == KeyOrder::Less <==> lex_lt(char_ranks(a@), char_ranks(b@)),
        r == KeyOrder::Greater <==> lex_lt(char_ranks(b@), char_ranks(a@)),
        r == KeyOrder::Equal <==> a@ == b@,
{
    let n = a.unicode_len();
    let m = b.unicode_len();
    let ghost ra = char_ranks(a@);
    let ghost rb = char_ranks(b@);
    let mut i: usize = 0;
    while i < n && i < m
        invariant
            n == a@.len(),
            m == b@.len(),
            ra == char_ranks(a@),
            rb == char_ranks(b@),
            i <= n,
            i <= m,
            ra.take(i as int) =~= rb.take(i as int),
        decreases n - i,
    {
        let ca = a.get_char(i);
        let cb = b.get_char(i);
        let xa = ca as u32;
        let xb = cb as u32;
        if xa != xb {
            proof {
                lemma_lex_skip(ra, rb, i as int);
                lemma_lex_skip(rb, ra, i as int);
                assert(ra.skip(i as int)[0] == xa);
                assert(rb.skip(i as int)[0] == xb);
                assert(a@ != b@) by {
                    if a@ == b@ {
                        assert(a@[i as int] == b@[i as int]);
                    }
                }
            }
            if xa < xb {
                return KeyOrder::Less;
            } else {
                return KeyOrder::Greater;
            }
        }
        assert(ra.take(i + 1) =~= rb.take(i + 1)) by {
            assert(ra.take(i + 1) =~= ra.take(i as int).push(ra[i as int]));
            assert(rb.take(i + 1) =~= rb.take(i as int).push(rb[i as int]));
        }
        i = i + 1;
    }
    proof {
        lemma_lex_skip(ra, rb, i as int);
        lemma_lex_skip(rb, ra, i as int);
    }
    if n < m {
        proof {
            assert(ra.skip(i as int).len() == 0);
        }
        KeyOrder::Less
    } else if m < n {
        KeyOrder::Greater
    } else {
        proof {
            assert(ra =~= ra.take(i as int));
            assert(rb =~= rb.take(i as int));
            assert forall|k: int| 0 <= k < n implies a@[k] == b@[k] by {
                assert(ra[k] == rb[k]);
            }
            assert(a@ =~= b@);
            lemma_lex_irreflexive(ra);
        }
        KeyOrder::Equal
    }
}

impl MapKey for String {
    open spec fn rank(v: Seq<char>) -> Seq<int> {
        char_ranks(v)
    }

    proof fn lemma_rank_injective(a: Seq<char>, b: Seq<char>) {
        assert(char_ranks(a).len() == char_ranks(b).len());
        assert forall|k: int| 0 <= k < a.len() implies a[k] == b[k] by {
            assert(char_ranks(a)[k] == char_ranks(b)[k]);
        }
        assert(a =~= b);
    }

    fn compare_key(&self, other: &String) -> (r: KeyOrder) {
        compare_str(self.as_str(), other.as_str())
    }

    fn clone_key(&self) -> (r: String) {
        self.clone()
    }
}

} // verus!
