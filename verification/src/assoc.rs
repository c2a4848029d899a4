//! First-match association lists keyed by character sequences, the
//! mathematical model behind the library's small string-keyed maps.

use vstd::prelude::*;

verus! {

/// First-match lookup in an association list of key/value pairs.
pub open spec fn assoc_lookup<V>(s: Seq<(Seq<char>, V)>, k: Seq<char>) -> Option<V>
    decreases s.len(),
{
    if s.len() == 0 {
        None
    } else if s[0].0 == k {
        Some(s[0].1)
    } else {
        assoc_lookup(s.skip(1), k)
    }
}

/// All keys of the association list are distinct.
pub open spec fn assoc_keys_distinct<V>(s: Seq<(Seq<char>, V)>) -> bool {
    forall|i: int, j: int| 0 <= i < j < s.len() ==> (#[trigger] s[i]).0 != (#[trigger] s[j]).0
}

pub proof fn lemma_assoc_at<V>(s: Seq<(Seq<char>, V)>, k: Seq<char>, i: int)
    requires
        0 <= i < s.len(),
        s[i].0 == k,
        forall|j: int| 0 <= j < i ==> (#[trigger] s[j]).0 != k,
    ensures
        assoc_lookup(s, k) == Some(s[i].1),
    decreases i,
{
    if i > 0 {
        assert forall|j: int| 0 <= j < i - 1 implies (#[trigger] s.skip(1)[j]).0 != k by {
            assert(s.skip(1)[j] == s[j + 1]);
        }
        assert(s.skip(1)[i - 1] == s[i]);
        lemma_assoc_at(s.skip(1), k, i - 1);
    }
}

pub proof fn lemma_assoc_absent<V>(s: Seq<(Seq<char>, V)>, k: Seq<char>)
    requires
        forall|j: int| 0 <= j < s.len() ==> (#[trigger] s[j]).0 != k,
    ensures
        assoc_lookup(s, k) is None,
    decreases s.len(),
{
    if s.len() > 0 {
        assert forall|j: int| 0 <= j < s.skip(1).len() implies (#[trigger] s.skip(1)[j]).0 != k by {
            assert(s.skip(1)[j] == s[j + 1]);
        }
        lemma_assoc_absent(s.skip(1), k);
    }
}

pub proof fn lemma_assoc_push<V>(s: Seq<(Seq<char>, V)>, k: Seq<char>, v: V, q: Seq<char>)
    ensures
        assoc_lookup(s, q) is Some ==> assoc_lookup(s.push((k, v)), q) == assoc_lookup(s, q),
        assoc_lookup(s, q) is None && q == k ==> assoc_lookup(s.push((k, v)), q) == Some(v),
        assoc_lookup(s, q) is None && q != k ==> assoc_lookup(s.push((k, v)), q) is None,
    decreases s.len(),
{
    let p = s.push((k, v));
    if s.len() == 0 {
        assert(p[0] == (k, v));
        assert(p.skip(1) =~= Seq::<(Seq<char>, V)>::empty());
        assert(assoc_lookup(p.skip(1), q) is None);
        if q == k {
            assert(assoc_lookup(p, q) == Some(v));
        } else {
            assert(assoc_lookup(p, q) is None);
        }
    } else {
        assert(p[0] == s[0]);
        assert(p.skip(1) =~= s.skip(1).push((k, v)));
        lemma_assoc_push(s.skip(1), k, v, q);
        assert(assoc_lookup(s, q) == if s[0].0 == q {
            Some(s[0].1)
        } else {
            assoc_lookup(s.skip(1), q)
        });
        assert(assoc_lookup(p, q) == if s[0].0 == q {
            Some(s[0].1)
        } else {
            assoc_lookup(p.skip(1), q)
        });
    }
}

pub proof fn lemma_assoc_remove<V>(s: Seq<(Seq<char>, V)>, i: int, q: Seq<char>)
    requires
        0 <= i < s.len(),
        assoc_keys_distinct(s),
    ensures
        q == s[i].0 ==> assoc_lookup(s.remove(i), q) is None,
        q != s[i].0 ==> assoc_lookup(s.remove(i), q) == assoc_lookup(s, q),
    decreases s.len(),
{
    if i == 0 {
        assert(s.remove(0) =~= s.skip(1));
        if q == s[0].0 {
            assert forall|j: int| 0 <= j < s.skip(1).len() implies (#[trigger] s.skip(1)[j]).0
                != q by {
                assert(s.skip(1)[j] == s[j + 1]);
            }
            lemma_assoc_absent(s.skip(1), q);
        }
    } else {
        assert(s.remove(i)[0] == s[0]);
        assert(s.remove(i).skip(1) =~= s.skip(1).remove(i - 1));
        assert forall|a: int, b: int| 0 <= a < b < s.skip(1).len() implies (#[trigger] s.skip(
            1,
        )[a]).0 != (#[trigger] s.skip(1)[b]).0 by {
            assert(s.skip(1)[a] == s[a + 1]);
            assert(s.skip(1)[b] == s[b + 1]);
        }
        assert(s.skip(1)[i - 1] == s[i]);
        lemma_assoc_remove(s.skip(1), i - 1, q);
        if q != s[i].0 && s[0].0 != q {
            assert(assoc_lookup(s, q) == assoc_lookup(s.skip(1), q));
        }
    }
}

} // verus!
