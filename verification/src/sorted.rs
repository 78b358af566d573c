//! Strictly sorted lists of names, as the library's category menus use them
//! (the result of sorting a list of names and removing duplicates).
use vstd::prelude::*;
use crate::text::{text_eq, text_less, text_lt, lemma_text_lt_total, lemma_text_lt_transitive};

verus! {

/// The character sequences of a list of strings.
pub open spec fn views(v: Seq<String>) -> Seq<Seq<char>> {
    v.map_values(|s: String| s@)
}

/// Every name sorts strictly before the names after it (sorted, no duplicates).
pub open spec fn strictly_sorted(s: Seq<Seq<char>>) -> bool {
    forall|i: int, j: int| 0 <= i < j < s.len() ==> text_lt(#[trigger] s[i], #[trigger] s[j])
}

/// Inserts `s` into a strictly sorted list unless it is already present,
/// keeping the list strictly sorted.
pub fn insert_sorted_unique(v: &mut Vec<String>, s: String)
    requires
        strictly_sorted(views(old(v)@)),
    ensures
        strictly_sorted(views(final(v)@)),
        forall|x: Seq<char>| #[trigger] views(final(v)@).contains(x) <==> views(old(v)@).contains(x) || x == s@,
{
    let ghost o = views(v@);
    let mut i: usize = 0;
    while i < v.len() && text_less(v[i].as_str(), s.as_str())
        invariant
            o == views(v@),
            strictly_sorted(o),
            i <= v.len(),
            forall|j: int| 0 <= j < i ==> text_lt(#[trigger] o[j], s@),
        decreases v.len() - i,
    {
        assert(o[i as int] == v@[i as int]@);
        i = i + 1;
    }
    if i < v.len() && text_eq(v[i].as_str(), s.as_str()) {
        assert(o[i as int] == s@);
        return;
    }
    proof {
        if i < v.len() {
            assert(o[i as int] == v@[i as int]@);
            assert(!text_lt(o[i as int], s@));
            lemma_text_lt_total(o[i as int], s@);
            assert(text_lt(s@, o[i as int]));
        }
    }
    v.insert(i, s);
    proof {
        let n = views(v@);
        assert(n =~= o.insert(i as int, s@));
        assert forall|a: int, b: int| 0 <= a < b < n.len() implies text_lt(
            #[trigger] n[a],
            #[trigger] n[b],
        ) by {
            if b < i {
                assert(n[a] == o[a] && n[b] == o[b]);
            } else if b == i {
                assert(n[a] == o[a]);
            } else if a == i {
                assert(n[b] == o[b - 1]);
                if b - 1 > i {
                    assert(text_lt(o[i as int], o[b - 1]));
                    lemma_text_lt_transitive(s@, o[i as int], o[b - 1]);
                }
            } else if a < i {
                assert(n[a] == o[a] && n[b] == o[b - 1]);
                if a < b - 1 {
                } else {
                }
            } else {
                assert(n[a] == o[a - 1] && n[b] == o[b - 1]);
            }
        }
        assert forall|x: Seq<char>| #[trigger] n.contains(x) <==> o.contains(x) || x == s@ by {
            if n.contains(x) {
                let k = choose|k: int| 0 <= k < n.len() && n[k] == x;
                if k < i {
                    assert(o[k] == x);
                } else if k > i {
                    assert(o[k - 1] == x);
                }
            }
            if o.contains(x) {
                let k = choose|k: int| 0 <= k < o.len() && o[k] == x;
                if k < i {
                    assert(n[k] == x);
                } else {
                    assert(n[k + 1] == x);
                }
            }
            if x == s@ {
                assert(n[i as int] == x);
            }
        }
    }
}

} // verus!
