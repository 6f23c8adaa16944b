//! Texts as sequences of characters, and the order in which they sort.

use vstd::prelude::*;

verus! {

/// Lexicographic order on texts, character by character, by code point.
/// A text that is a prefix of another comes first.
pub open spec fn lex_le(a: Seq<char>, b: Seq<char>) -> bool
    decreases a.len(),
{
    if a.len() == 0 {
        true
    } else if b.len() == 0 {
        false
    } else if a[0] == b[0] {
        lex_le(a.drop_first(), b.drop_first())
    } else {
        a[0] < b[0]
    }
}

/// The characters of `s`, in order.
pub fn chars_of(s: &str) -> (out: Vec<char>)
    ensures
        out@ == s@,
{
    let mut out: Vec<char> = Vec::new();
    for c in it: s.chars()
        invariant
            out@ == s@.take(it.index() as int),
            it.seq() == s@,
    {
        out.push(c);
    }
    out
}

/// Whether `a` sorts at or before `b`.
pub fn precedes(a: &Vec<char>, b: &Vec<char>) -> (r: bool)
    ensures
        r == lex_le(a@, b@),
{
    let mut i: usize = 0;
    proof {
        assert(a@.skip(0) =~= a@);
        assert(b@.skip(0) =~= b@);
    }
    while i < a.len() && i < b.len()
        invariant
            i <= a.len(),
            i <= b.len(),
            lex_le(a@, b@) == lex_le(a@.skip(i as int), b@.skip(i as int)),
        decreases a.len() - i,
    {
        let x = a[i];
        let y = b[i];
        proof {
            assert(a@.skip(i as int).drop_first() =~= a@.skip(i + 1));
            assert(b@.skip(i as int).drop_first() =~= b@.skip(i + 1));
        }
        if x != y {
            return x < y;
        }
        i += 1;
    }
    i == a.len()
}

/// Every text sorts at or before itself.
pub proof fn lemma_lex_le_reflexive(a: Seq<char>)
    ensures
        lex_le(a, a),
    decreases a.len(),
{
    if a.len() > 0 {
        lemma_lex_le_reflexive(a.drop_first());
    }
}

/// Of two texts, one sorts at or before the other.
pub proof fn lemma_lex_le_total(a: Seq<char>, b: Seq<char>)
    ensures
        lex_le(a, b) || lex_le(b, a),
    decreases a.len(),
{
    if a.len() > 0 && b.len() > 0 && a[0] == b[0] {
        lemma_lex_le_total(a.drop_first(), b.drop_first());
    }
}

/// Two texts that sort at or before each other are the same text.
pub proof fn lemma_lex_le_antisymmetric(a: Seq<char>, b: Seq<char>)
    requires
        lex_le(a, b),
        lex_le(b, a),
    ensures
        a == b,
    decreases a.len(),
{
    if a.len() > 0 && b.len() > 0 {
        lemma_lex_le_antisymmetric(a.drop_first(), b.drop_first());
        assert(a =~= seq![a[0]] + a.drop_first());
    }
}

/// The order is transitive.
pub proof fn lemma_lex_le_transitive(a: Seq<char>, b: Seq<char>, c: Seq<char>)
    requires
        lex_le(a, b),
        lex_le(b, c),
    ensures
        lex_le(a, c),
    decreases a.len(),
{
    if a.len() > 0 && b.len() > 0 && c.len() > 0 && a[0] == b[0] && b[0] == c[0] {
        lemma_lex_le_transitive(a.drop_first(), b.drop_first(), c.drop_first());
    }
}

/// The texts that a sequence of strings holds.
pub open spec fn texts(v: Seq<String>) -> Seq<Seq<char>> {
    v.map_values(|s: String| s@)
}

/// Whether every text sorts at or before all that follow it.
pub open spec fn sorted(s: Seq<Seq<char>>) -> bool {
    forall|i: int, j: int| 0 <= i <= j < s.len() ==> lex_le(#[trigger] s[i], #[trigger] s[j])
}

/// The order as a relation, for the sequence library.
pub open spec fn lex_order() -> spec_fn(Seq<char>, Seq<char>) -> bool {
    |a: Seq<char>, b: Seq<char>| lex_le(a, b)
}

/// The texts of `s` in ascending order.
pub open spec fn ascending(s: Seq<Seq<char>>) -> Seq<Seq<char>> {
    s.sort_by(lex_order())
}

/// The order is total: reflexive, antisymmetric, transitive, and any two
/// texts are related one way or the other.
pub proof fn lemma_lex_order_total()
    ensures
        vstd::relations::total_ordering(lex_order()),
{
    let r = lex_order();
    assert forall|x: Seq<char>| #[trigger] r(x, x) by {
        lemma_lex_le_reflexive(x);
    }
    assert forall|x: Seq<char>, y: Seq<char>| #[trigger] r(x, y) && #[trigger] r(y, x) implies x
        == y by {
        lemma_lex_le_antisymmetric(x, y);
    }
    assert forall|x: Seq<char>, y: Seq<char>, z: Seq<char>| #[trigger] r(x, y) && #[trigger] r(
        y,
        z,
    ) implies r(x, z) by {
        lemma_lex_le_transitive(x, y, z);
    }
    assert forall|x: Seq<char>, y: Seq<char>| #[trigger] r(x, y) || #[trigger] r(y, x) by {
        lemma_lex_le_total(x, y);
    }
}

/// `ascending(s)` is sorted and holds exactly the texts of `s`, each as often
/// as `s` does.
pub proof fn lemma_ascending(s: Seq<Seq<char>>)
    ensures
        sorted(ascending(s)),
        ascending(s).to_multiset() == s.to_multiset(),
        ascending(s).len() == s.len(),
        forall|x: Seq<char>| ascending(s).contains(x) <==> s.contains(x),
{
    lemma_lex_order_total();
    s.lemma_sort_by_ensures(lex_order());
    let t = ascending(s);
    assert forall|i: int, j: int| 0 <= i <= j < t.len() implies lex_le(
        #[trigger] t[i],
        #[trigger] t[j],
    ) by {
        if i == j {
            lemma_lex_le_reflexive(t[i]);
        } else {
            assert(lex_order()(t[i], t[j]));
        }
    }
    vstd::seq_lib::to_multiset_len(s);
    vstd::seq_lib::to_multiset_len(t);
    assert forall|x: Seq<char>| t.contains(x) <==> s.contains(x) by {
        vstd::seq_lib::to_multiset_contains(s, x);
        vstd::seq_lib::to_multiset_contains(t, x);
    }
}

/// A sorted sequence that holds exactly the texts of `s` is `ascending(s)`.
pub proof fn lemma_ascending_unique(s: Seq<Seq<char>>, t: Seq<Seq<char>>)
    requires
        sorted(t),
        t.to_multiset() == s.to_multiset(),
    ensures
        t == ascending(s),
{
    lemma_lex_order_total();
    s.lemma_sort_by_ensures(lex_order());
    assert(vstd::relations::sorted_by(t, lex_order())) by {
        assert forall|i: int, j: int| 0 <= i < j < t.len() implies #[trigger] lex_order()(
            t[i],
            t[j],
        ) by {}
    }
    vstd::seq_lib::lemma_sorted_unique(t, ascending(s), lex_order());
}

/// Putting `x` at position `p` of a sorted sequence keeps it sorted when
/// everything before `p` sorts at or before `x` and `x` sorts at or before
/// the text that stood at `p`.
proof fn lemma_insert_keeps_sorted(s: Seq<Seq<char>>, p: int, x: Seq<char>)
    requires
        sorted(s),
        0 <= p <= s.len(),
        forall|k: int| 0 <= k < p ==> lex_le(#[trigger] s[k], x),
        p < s.len() ==> lex_le(x, s[p]),
    ensures
        sorted(s.insert(p, x)),
{
    let t = s.insert(p, x);
    assert forall|i: int, j: int| 0 <= i <= j < t.len() implies lex_le(
        #[trigger] t[i],
        #[trigger] t[j],
    ) by {
        if i == p && j == p {
            lemma_lex_le_reflexive(x);
        } else if i == p {
            lemma_lex_le_transitive(x, s[p], s[j - 1]);
        }
    }
}

/// The strings of `items` in ascending lexicographic order. The result holds
/// exactly the texts of `items`, each as often as `items` does.
pub fn sort_texts(items: &Vec<String>) -> (out: Vec<String>)
    ensures
        texts(out@) == ascending(texts(items@)),
        sorted(texts(out@)),
        texts(out@).to_multiset() == texts(items@).to_multiset(),
{
    let mut out: Vec<String> = Vec::new();
    let mut keys: Vec<Vec<char>> = Vec::new();
    let mut n: usize = 0;
    proof {
        assert(texts(items@.take(0)) =~= texts(out@));
    }
    while n < items.len()
        invariant
            n <= items.len(),
            keys.len() == out.len(),
            forall|k: int| 0 <= k < out.len() ==> (#[trigger] keys[k])@ == out[k]@,
            sorted(texts(out@)),
            texts(out@).to_multiset() == texts(items@.take(n as int)).to_multiset(),
        decreases items.len() - n,
    {
        let item = items[n].clone();
        let key = chars_of(item.as_str());
        let mut p: usize = 0;
        while p < out.len() && precedes(&keys[p], &key)
            invariant
                p <= out.len(),
                keys.len() == out.len(),
                forall|k: int| 0 <= k < out.len() ==> (#[trigger] keys[k])@ == out[k]@,
                forall|k: int| 0 <= k < p ==> lex_le(#[trigger] texts(out@)[k], key@),
            decreases out.len() - p,
        {
            p += 1;
        }
        proof {
            let before = texts(out@);
            let prefix = texts(items@.take(n as int));
            if p < out.len() {
                lemma_lex_le_total(before[p as int], key@);
            }
            lemma_insert_keeps_sorted(before, p as int, key@);
            assert(texts(out@.insert(p as int, item)) =~= before.insert(p as int, key@));
            vstd::seq_lib::to_multiset_insert(before, p as int, key@);
            assert(texts(items@.take(n + 1)) =~= prefix.push(key@));
            vstd::seq_lib::to_multiset_build(prefix, key@);
        }
        out.insert(p, item);
        keys.insert(p, key);
        n += 1;
    }
    proof {
        assert(items@.take(n as int) =~= items@);
        lemma_ascending_unique(texts(items@), texts(out@));
    }
    out
}

} // verus!
