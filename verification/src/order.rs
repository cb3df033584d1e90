use vstd::prelude::*;

verus! {

/// Result of a three-way comparison.
#[derive(Clone, Copy, Debug, PartialEq, Eq, Structural)]
pub enum Order {
    Less,
    Equal,
    Greater,
}

/// Lexicographic order on character sequences by code point; on text this is
/// the order of `String`'s `Ord`, since UTF-8 preserves code point order.
pub open spec fn lex_lt(a: Seq<char>, b: Seq<char>) -> bool
    decreases a.len(),
{
    if a.len() == 0 {
        b.len() > 0
    } else if b.len() == 0 {
        false
    } else if a[0] < b[0] {
        true
    } else if a[0] == b[0] {
        lex_lt(a.drop_first(), b.drop_first())
    } else {
        false
    }
}

/// The three-way comparison of `lex_lt`.
pub open spec fn lex_order(a: Seq<char>, b: Seq<char>) -> Order {
    if lex_lt(a, b) {
        Order::Less
    } else if a == b {
        Order::Equal
    } else {
        Order::Greater
    }
}

pub proof fn lemma_lex_irreflexive(a: Seq<char>)
    ensures
        !lex_lt(a, a),
    decreases a.len(),
{
    if a.len() > 0 {
        lemma_lex_irreflexive(a.drop_first());
    }
}

/// Exactly one of `a < b`, `a == b`, `b < a` holds.
pub proof fn lemma_lex_trichotomy(a: Seq<char>, b: Seq<char>)
    ensures
        lex_lt(a, b) || a == b || lex_lt(b, a),
        !(lex_lt(a, b) && lex_lt(b, a)),
        lex_lt(a, b) ==> a != b,
    decreases a.len(),
{
    if a.len() == 0 {
        if b.len() == 0 {
            assert(a =~= b);
        }
    } else if b.len() == 0 {
    } else if a[0] == b[0] {
        lemma_lex_trichotomy(a.drop_first(), b.drop_first());
        if a.drop_first() == b.drop_first() {
            assert forall|k: int| 0 <= k < a.len() implies a[k] == b[k] by {
                if k > 0 {
                    assert(a[k] == a.drop_first()[k - 1]);
                    assert(b[k] == b.drop_first()[k - 1]);
                }
            }
            assert(a =~= b);
        }
        if a == b {
            lemma_lex_irreflexive(a);
        }
    } else {
        if a == b {
            assert(a[0] == b[0]);
        }
    }
}

pub proof fn lemma_lex_transitive(a: Seq<char>, b: Seq<char>, c: Seq<char>)
    requires
        lex_lt(a, b),
        lex_lt(b, c),
    ensures
        lex_lt(a, c),
    decreases a.len(),
{
    if a.len() > 0 && b.len() > 0 && c.len() > 0 {
        if a[0] == b[0] && b[0] == c[0] {
            lemma_lex_transitive(a.drop_first(), b.drop_first(), c.drop_first());
        }
    }
}

/// Three-way comparison of character vectors.
pub fn compare_chars(a: &Vec<char>, b: &Vec<char>) -> (r: Order)
    ensures
        r == lex_order(a@, b@),
{
    let mut i: usize = 0;
    proof {
        lemma_lex_trichotomy(a@, b@);
    }
    assert(a@.skip(0) =~= a@);
    assert(b@.skip(0) =~= b@);
    while i < a.len() && i < b.len()
        invariant
            i <= a.len(),
            i <= b.len(),
            a@.take(i as int) == b@.take(i as int),
            lex_lt(a@, b@) == lex_lt(a@.skip(i as int), b@.skip(i as int)),
            lex_lt(b@, a@) == lex_lt(b@.skip(i as int), a@.skip(i as int)),
        decreases a.len() - i,
    {
        let x = a[i];
        let y = b[i];
        if x != y {
            assert(a@.skip(i as int)[0] == x);
            assert(b@.skip(i as int)[0] == y);
            proof {
                lemma_lex_trichotomy(a@, b@);
            }
            if x < y {
                return Order::Less;
            } else {
                assert(a@[i as int] != b@[i as int]);
                return Order::Greater;
            }
        }
        assert(a@.skip(i as int).drop_first() =~= a@.skip(i + 1));
        assert(b@.skip(i as int).drop_first() =~= b@.skip(i + 1));
        assert(a@.take(i + 1) =~= a@.take(i as int).push(x));
        assert(b@.take(i + 1) =~= b@.take(i as int).push(y));
        i += 1;
    }
    proof {
        lemma_lex_trichotomy(a@, b@);
    }
    if a.len() == b.len() {
        assert(a@ =~= a@.take(i as int));
        assert(b@ =~= b@.take(i as int));
        Order::Equal
    } else if a.len() < b.len() {
        Order::Less
    } else {
        assert(a@ != b@);
        Order::Greater
    }
}

/// `a` strictly increasing in `lex_lt`.
pub open spec fn strictly_sorted(s: Seq<Seq<char>>) -> bool {
    forall|i: int, j: int| 0 <= i < j < s.len() ==> lex_lt(s[i], s[j])
}

/// Inserts `x` into a strictly sorted list unless it is already there.
pub fn insert_sorted_unique(v: &mut Vec<Vec<char>>, x: Vec<char>)
    requires
        strictly_sorted(crate::text::views(old(v)@)),
    ensures
        strictly_sorted(crate::text::views(final(v)@)),
        crate::text::views(final(v)@).to_set() == crate::text::views(old(v)@).to_set().insert(x@),
{
    let ghost s0 = crate::text::views(v@);
    let mut i: usize = 0;
    while i < v.len()
        invariant
            i <= v.len(),
            crate::text::views(v@) == s0,
            strictly_sorted(s0),
            forall|j: int| 0 <= j < i ==> lex_lt(s0[j], x@),
        ensures
            i <= v.len(),
            crate::text::views(v@) == s0,
            forall|j: int| 0 <= j < i ==> lex_lt(s0[j], x@),
            i < v.len() ==> lex_lt(x@, s0[i as int]),
        decreases v.len() - i,
    {
        match compare_chars(&v[i], &x) {
            Order::Less => {},
            Order::Equal => {
                assert(s0.to_set().insert(x@) =~= s0.to_set()) by {
                    assert(s0[i as int] == x@);
                }
                return;
            },
            Order::Greater => {
                proof {
                    lemma_lex_trichotomy(s0[i as int], x@);
                }
                break;
            },
        }
        i += 1;
    }
    proof {
        assert forall|j: int| i <= j < s0.len() implies lex_lt(x@, s0[j]) by {
            if j > i {
                lemma_lex_transitive(x@, s0[i as int], s0[j]);
            }
        }
    }
    v.insert(i, x);
    let ghost s1 = crate::text::views(v@);
    assert(s1 =~= s0.insert(i as int, x@));
    assert forall|a: int, b: int| 0 <= a < b < s1.len() implies lex_lt(s1[a], s1[b]) by {
        if a < i && b > i {
            lemma_lex_transitive(s1[a], x@, s1[b]);
        }
    }
    assert(s1.to_set() =~= s0.to_set().insert(x@)) by {
        assert forall|y: Seq<char>| s1.to_set().contains(y) <==> s0.to_set().insert(x@).contains(y) by {
            if s1.contains(y) {
                let k = choose|k: int| 0 <= k < s1.len() && s1[k] == y;
                if k < i {
                    assert(s0[k] == y);
                } else if k > i {
                    assert(s0[k - 1] == y);
                }
            }
            if s0.contains(y) {
                let k = choose|k: int| 0 <= k < s0.len() && s0[k] == y;
                if k < i {
                    assert(s1[k] == y);
                } else {
                    assert(s1[k + 1] == y);
                }
            }
            if y == x@ {
                assert(s1[i as int] == y);
            }
        }
    }
}


/// A strictly sorted list is the only one with its elements.
pub proof fn lemma_sorted_unique(a: Seq<Seq<char>>, b: Seq<Seq<char>>)
    requires
        strictly_sorted(a),
        strictly_sorted(b),
        a.to_set() == b.to_set(),
    ensures
        a == b,
    decreases a.len(),
{
    if a.len() == 0 {
        if b.len() > 0 {
            assert(b.to_set().contains(b[0]));
            assert(a.to_set().contains(b[0]));
        }
        assert(a =~= b);
    } else {
        assert(a.to_set().contains(a[0]));
        assert(b.to_set().contains(a[0]));
        assert(b.len() > 0);
        assert(b.to_set().contains(b[0]));
        assert(a.to_set().contains(b[0]));
        let ia = choose|k: int| 0 <= k < a.len() && a[k] == b[0];
        let ib = choose|k: int| 0 <= k < b.len() && b[k] == a[0];
        if ia > 0 {
            assert(lex_lt(a[0], a[ia]));
            if ib > 0 {
                assert(lex_lt(b[0], b[ib]));
                lemma_lex_trichotomy(a[0], b[0]);
            } else {
                lemma_lex_irreflexive(a[0]);
            }
        }
        if ia == 0 {
            assert(a[0] == b[0]);
        } else {
            assert(b[ib] == a[0]);
            lemma_lex_trichotomy(a[0], b[0]);
        }
        assert(a[0] == b[0]);
        let a1 = a.drop_first();
        let b1 = b.drop_first();
        assert forall|x: Seq<char>| a1.to_set().contains(x) <==> b1.to_set().contains(x) by {
            if a1.contains(x) {
                let k = choose|k: int| 0 <= k < a1.len() && a1[k] == x;
                assert(a[k + 1] == x);
                assert(lex_lt(a[0], x));
                assert(a.to_set().contains(x));
                assert(b.contains(x));
                let m = choose|m: int| 0 <= m < b.len() && b[m] == x;
                if m == 0 {
                    lemma_lex_irreflexive(x);
                }
                assert(b1[m - 1] == x);
            }
            if b1.contains(x) {
                let k = choose|k: int| 0 <= k < b1.len() && b1[k] == x;
                assert(b[k + 1] == x);
                assert(lex_lt(b[0], x));
                assert(b.to_set().contains(x));
                assert(a.contains(x));
                let m = choose|m: int| 0 <= m < a.len() && a[m] == x;
                if m == 0 {
                    lemma_lex_irreflexive(x);
                }
                assert(a1[m - 1] == x);
            }
        }
        assert(a1.to_set() =~= b1.to_set());
        lemma_sorted_unique(a1, b1);
        assert(a =~= seq![a[0]] + a1);
        assert(b =~= seq![b[0]] + b1);
    }
}

/// The strictly sorted list of a set's elements, when there is one.
pub open spec fn sorted_list_of(s: Set<Seq<char>>) -> Seq<Seq<char>> {
    choose|l: Seq<Seq<char>>| strictly_sorted(l) && l.to_set() == s
}

/// A strictly sorted list is the sorted list of its elements.
pub proof fn lemma_sorted_list_of(l: Seq<Seq<char>>)
    requires
        strictly_sorted(l),
    ensures
        sorted_list_of(l.to_set()) == l,
{
    let c = sorted_list_of(l.to_set());
    assert(strictly_sorted(l) && l.to_set() == l.to_set());
    lemma_sorted_unique(c, l);
}

} // verus!
