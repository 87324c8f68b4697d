//! Name lists in the order of `str`'s `Ord` (byte-wise lexicographic).

use vstd::prelude::*;
use vstd::string::StringSliceAdditionalSpecFns;

verus! {

/// `a` sorts before or equal to `b`, byte by byte.
pub open spec fn bytes_le(a: Seq<u8>, b: Seq<u8>) -> bool
    decreases a.len(),
{
    if a.len() == 0 {
        true
    } else if b.len() == 0 {
        false
    } else if a[0] != b[0] {
        a[0] < b[0]
    } else {
        bytes_le(a.skip(1), b.skip(1))
    }
}

/// Byte strings are ordered as `str`'s `Ord` orders them: the empty string
/// comes before every string, and a string before every longer string that
/// begins with it (strictly so).
pub proof fn law_prefix_sorts_first(a: Seq<u8>, s: Seq<u8>)
    ensures
        bytes_le(Seq::<u8>::empty(), s),
        bytes_le(a, a + s),
        s.len() > 0 ==> !bytes_le(a + s, a),
    decreases a.len(),
{
    if a.len() > 0 {
        law_prefix_sorts_first(a.skip(1), s);
        assert((a + s).skip(1) =~= a.skip(1) + s);
        assert((a + s)[0] == a[0]);
    }
}

/// At the first differing byte, the smaller byte decides the order.
pub proof fn law_first_difference_decides(p: Seq<u8>, x: u8, y: u8, s: Seq<u8>, t: Seq<u8>)
    requires
        x < y,
    ensures
        bytes_le(p.push(x) + s, p.push(y) + t),
        !bytes_le(p.push(y) + t, p.push(x) + s),
    decreases p.len(),
{
    if p.len() > 0 {
        law_first_difference_decides(p.skip(1), x, y, s, t);
        assert((p.push(x) + s).skip(1) =~= p.skip(1).push(x) + s);
        assert((p.push(y) + t).skip(1) =~= p.skip(1).push(y) + t);
        assert((p.push(x) + s)[0] == p[0]);
        assert((p.push(y) + t)[0] == p[0]);
    } else {
        assert((p.push(x) + s)[0] == x);
        assert((p.push(y) + t)[0] == y);
    }
}

/// `a <= b` for string slices.
pub open spec fn str_le(a: &str, b: &str) -> bool {
    bytes_le(a.spec_bytes(), b.spec_bytes())
}

/// Names in ascending order.
pub open spec fn sorted_names(s: Seq<&'static str>) -> bool {
    forall|i: int, j: int| 0 <= i < j < s.len() ==> str_le(#[trigger] s[i], #[trigger] s[j])
}

/// The texts of the names.
pub open spec fn name_texts(s: Seq<&'static str>) -> Seq<Seq<char>> {
    s.map_values(|x: &'static str| x@)
}

/// Any two byte strings are ordered one way or the other.
pub proof fn lemma_bytes_le_total(a: Seq<u8>, b: Seq<u8>)
    ensures
        bytes_le(a, b) || bytes_le(b, a),
    decreases a.len(),
{
    if a.len() > 0 && b.len() > 0 && a[0] == b[0] {
        lemma_bytes_le_total(a.skip(1), b.skip(1));
    }
}

/// The byte order is transitive.
pub proof fn lemma_bytes_le_trans(a: Seq<u8>, b: Seq<u8>, c: Seq<u8>)
    requires
        bytes_le(a, b),
        bytes_le(b, c),
    ensures
        bytes_le(a, c),
    decreases a.len(),
{
    if a.len() > 0 && b.len() > 0 && c.len() > 0 && a[0] == b[0] && b[0] == c[0] {
        lemma_bytes_le_trans(a.skip(1), b.skip(1), c.skip(1));
    }
}

/// Byte strings ordered both ways are equal.
pub proof fn lemma_bytes_le_antisym(a: Seq<u8>, b: Seq<u8>)
    requires
        bytes_le(a, b),
        bytes_le(b, a),
    ensures
        a == b,
    decreases a.len(),
{
    if a.len() > 0 && b.len() > 0 {
        lemma_bytes_le_antisym(a.skip(1), b.skip(1));
        assert(a =~= seq![a[0]] + a.skip(1));
        assert(b =~= seq![b[0]] + b.skip(1));
    } else {
        assert(a =~= b);
    }
}

/// Two strings with the same bytes have the same text.
pub proof fn lemma_same_bytes_same_text(a: &str, b: &str)
    requires
        a.spec_bytes() == b.spec_bytes(),
    ensures
        a@ == b@,
{
    vstd::utf8::encode_utf8_decode_utf8(a@);
    vstd::utf8::encode_utf8_decode_utf8(b@);
}

/// `a <= b`, computed byte by byte.
pub fn str_le_exec(a: &str, b: &str) -> (r: bool)
    ensures
        r == str_le(a, b),
{
    let x = a.as_bytes();
    let y = b.as_bytes();
    let mut i: usize = 0;
    proof {
        assert(x@.skip(0) =~= x@);
        assert(y@.skip(0) =~= y@);
    }
    while i < x.len() && i < y.len()
        invariant
            i <= x@.len(),
            i <= y@.len(),
            x@ == a.spec_bytes(),
            y@ == b.spec_bytes(),
            bytes_le(x@, y@) == bytes_le(x@.skip(i as int), y@.skip(i as int)),
        decreases x@.len() - i,
    {
        if x[i] != y[i] {
            return x[i] < y[i];
        }
        proof {
            assert(x@.skip(i as int).skip(1) =~= x@.skip(i + 1));
            assert(y@.skip(i as int).skip(1) =~= y@.skip(i + 1));
        }
        i = i + 1;
    }
    i == x.len()
}

proof fn lemma_insert_multiset<A>(s: Seq<A>, pos: int, x: A)
    requires
        0 <= pos <= s.len(),
    ensures
        s.insert(pos, x).to_multiset() == s.to_multiset().insert(x),
{
    let left = s.subrange(0, pos);
    let right = s.subrange(pos, s.len() as int);
    assert(s =~= left + right);
    vstd::seq_lib::lemma_multiset_commutative(left, right);
    vstd::seq_lib::lemma_multiset_commutative(left.push(x), right);
    assert(left.push(x).to_multiset() == left.to_multiset().insert(x)) by {
        left.to_multiset_ensures();
    }
    assert(s.insert(pos, x) =~= left.push(x) + right);
}

/// `names` in ascending order (`sort` on `&str`).
pub fn sort_names(names: Vec<&'static str>) -> (r: Vec<&'static str>)
    ensures
        sorted_names(r@),
        r@.to_multiset() == names@.to_multiset(),
{
    let mut out: Vec<&'static str> = Vec::new();
    let mut i: usize = 0;
    proof {
        assert(names@.take(0) =~= Seq::<&'static str>::empty());
    }
    while i < names.len()
        invariant
            i <= names@.len(),
            sorted_names(out@),
            out@.to_multiset() == names@.take(i as int).to_multiset(),
        decreases names@.len() - i,
    {
        let x = names[i];
        let mut p: usize = 0;
        while p < out.len() && str_le_exec(out[p], x)
            invariant
                p <= out@.len(),
                forall|q: int| 0 <= q < p ==> str_le(out@[q], x),
            decreases out@.len() - p,
        {
            p = p + 1;
        }
        let ghost before = out@;
        out.insert(p, x);
        proof {
            assert(out@ == before.insert(p as int, x));
            before.insert_ensures(p as int, x);
            if p < before.len() {
                assert(!str_le(before[p as int], x));
                lemma_bytes_le_total(before[p as int].spec_bytes(), x.spec_bytes());
            }
            assert forall|a: int, b: int| 0 <= a < b < out@.len() implies str_le(#[trigger] out@[a], #[trigger] out@[b]) by {
                if b < p {
                    assert(out@[a] == before[a] && out@[b] == before[b]);
                } else if b == p {
                    assert(out@[a] == before[a]);
                } else if a < p {
                    assert(out@[a] == before[a] && out@[b] == before[b - 1]);
                    assert(str_le(before[a], before[b - 1]) || a == b - 1);
                    if a == b - 1 {
                    } else {
                        assert(str_le(before[a], before[b - 1]));
                    }
                } else if a == p {
                    assert(out@[b] == before[b - 1]);
                    if b - 1 > p {
                        assert(str_le(before[p as int], before[b - 1]));
                        lemma_bytes_le_trans(x.spec_bytes(), before[p as int].spec_bytes(), before[b - 1].spec_bytes());
                    }
                } else {
                    assert(out@[a] == before[a - 1] && out@[b] == before[b - 1]);
                }
            }
            lemma_insert_multiset(before, p as int, x);
            assert(names@.take(i + 1) =~= names@.take(i as int).push(x));
            names@.take(i as int).to_multiset_ensures();
        }
        i = i + 1;
    }
    proof {
        assert(names@.take(names@.len() as int) =~= names@);
    }
    out
}

/// Sorted, with only the first of each run of equal texts kept (`dedup`).
pub fn dedup_sorted(names: Vec<&'static str>) -> (r: Vec<&'static str>)
    requires
        sorted_names(names@),
    ensures
        sorted_names(r@),
        name_texts(r@).no_duplicates(),
        name_texts(r@).to_set() == name_texts(names@).to_set(),
{
    let mut out: Vec<&'static str> = Vec::new();
    let mut i: usize = 0;
    while i < names.len()
        invariant
            i <= names@.len(),
            sorted_names(names@),
            sorted_names(out@),
            name_texts(out@).no_duplicates(),
            name_texts(out@).to_set() == name_texts(names@.take(i as int)).to_set(),
            out@.len() > 0 ==> i > 0 && out@.last()@ == names@[i - 1]@,
            forall|k: int| 0 <= k < out@.len() ==> exists|m: int| 0 <= m < i && #[trigger] out@[k] == names@[m],
        decreases names@.len() - i,
    {
        let x = names[i];
        let ghost before = out@;
        let keep = if out.len() == 0 {
            true
        } else {
            !crate::interop::str_eq(out[out.len() - 1], x)
        };
        if keep {
            out.push(x);
            proof {
                assert forall|a: int, b: int| 0 <= a < b < out@.len() implies str_le(#[trigger] out@[a], #[trigger] out@[b]) by {
                    if b == out@.len() - 1 {
                        let m = choose|m: int| 0 <= m < i && out@[a] == names@[m];
                        assert(str_le(names@[m], names@[i as int]));
                    }
                }
                assert forall|a: int, b: int| 0 <= a < b < name_texts(out@).len() implies name_texts(out@)[a] != name_texts(out@)[b] by {
                    if b < out@.len() - 1 {
                        assert(name_texts(out@)[a] == name_texts(before)[a]);
                        assert(name_texts(out@)[b] == name_texts(before)[b]);
                    } else {
                        let last = before.len() - 1;
                        assert(before[last]@ != x@);
                        if name_texts(out@)[a] == x@ {
                            assert(out@[a] == before[a]);
                            assert(a != last);
                            let ml = choose|ml: int| 0 <= ml < i && before[last] == names@[ml];
                            assert(str_le(before[last], x)) by {
                                assert(str_le(names@[ml], names@[i as int]));
                            }
                            assert(str_le(before[a], before[last]));
                            assert(before[a].spec_bytes() == x.spec_bytes());
                            lemma_bytes_le_antisym(before[last].spec_bytes(), x.spec_bytes());
                            lemma_same_bytes_same_text(before[last], x);
                        }
                    }
                }
                assert(forall|k: int| 0 <= k < out@.len() ==> exists|m: int| 0 <= m < i + 1 && #[trigger] out@[k] == names@[m]) by {
                    assert forall|k: int| 0 <= k < out@.len() implies exists|m: int| 0 <= m < i + 1 && #[trigger] out@[k] == names@[m] by {
                        if k == out@.len() - 1 {
                            assert(out@[k] == names@[i as int]);
                        } else {
                            let m = choose|m: int| 0 <= m < i && before[k] == names@[m];
                            assert(out@[k] == names@[m]);
                        }
                    }
                }
            }
        }
        proof {
            assert(names@.take(i + 1) =~= names@.take(i as int).push(x));
            assert(name_texts(names@.take(i + 1)) =~= name_texts(names@.take(i as int)).push(x@));
            if keep {
                assert(name_texts(out@) =~= name_texts(before).push(x@));
                name_texts(before).lemma_push_to_set_commute(x@);
                name_texts(names@.take(i as int)).lemma_push_to_set_commute(x@);
            } else {
                assert(out@.last()@ == x@);
                assert(name_texts(out@).to_set().contains(x@)) by {
                    assert(name_texts(out@)[out@.len() - 1] == x@);
                }
                name_texts(names@.take(i as int)).lemma_push_to_set_commute(x@);
                assert(name_texts(out@).to_set() =~= name_texts(names@.take(i + 1)).to_set());
            }
        }
        i = i + 1;
    }
    proof {
        assert(names@.take(names@.len() as int) =~= names@);
    }
    out
}

/// A rearrangement of names with distinct texts has distinct texts, the
/// same texts, and the same length.
pub proof fn lemma_rearranged_names(k: Seq<&'static str>, r: Seq<&'static str>)
    requires
        r.to_multiset() == k.to_multiset(),
        name_texts(k).no_duplicates(),
    ensures
        name_texts(r).no_duplicates(),
        name_texts(r).to_set() == name_texts(k).to_set(),
        r.len() == k.len(),
{
    k.to_multiset_ensures();
    r.to_multiset_ensures();
    assert(k.no_duplicates()) by {
        assert forall|i: int, j: int| 0 <= i < k.len() && 0 <= j < k.len() && i != j implies k[i] != k[j] by {
            assert(name_texts(k)[i] == k[i]@);
            assert(name_texts(k)[j] == k[j]@);
        }
    }
    k.lemma_multiset_has_no_duplicates();
    r.lemma_multiset_has_no_duplicates_conv();
    assert forall|a: int, b: int| 0 <= a < b < name_texts(r).len() implies name_texts(r)[a] != name_texts(r)[b] by {
        assert(r.contains(r[a]) && r.contains(r[b]));
        assert(r.to_multiset().count(r[a]) > 0 && r.to_multiset().count(r[b]) > 0);
        assert(k.contains(r[a]));
        assert(k.contains(r[b]));
        let i = choose|i: int| 0 <= i < k.len() && k[i] == r[a];
        let j = choose|j: int| 0 <= j < k.len() && k[j] == r[b];
        assert(name_texts(k)[i] == k[i]@);
        assert(name_texts(k)[j] == k[j]@);
        if r[a]@ == r[b]@ {
            assert(i == j);
        }
    }
    assert forall|t: Seq<char>| name_texts(r).to_set().contains(t) <==> name_texts(k).to_set().contains(t) by {
        if name_texts(r).to_set().contains(t) {
            let a = choose|a: int| 0 <= a < name_texts(r).len() && name_texts(r)[a] == t;
            assert(r.contains(r[a]));
            assert(r.to_multiset().count(r[a]) > 0);
            assert(k.contains(r[a]));
            let i = choose|i: int| 0 <= i < k.len() && k[i] == r[a];
            assert(name_texts(k)[i] == t);
        }
        if name_texts(k).to_set().contains(t) {
            let i = choose|i: int| 0 <= i < name_texts(k).len() && name_texts(k)[i] == t;
            assert(k.contains(k[i]));
            assert(k.to_multiset().count(k[i]) > 0);
            assert(r.contains(k[i]));
            let a = choose|a: int| 0 <= a < r.len() && r[a] == k[i];
            assert(name_texts(r)[a] == t);
        }
    }
    assert(name_texts(r).to_set() =~= name_texts(k).to_set());
}

/// Names with distinct texts, sorted: the same texts, each once.
pub fn sort_distinct_names(names: Vec<&'static str>) -> (r: Vec<&'static str>)
    requires
        name_texts(names@).no_duplicates(),
    ensures
        sorted_names(r@),
        name_texts(r@).no_duplicates(),
        name_texts(r@).to_set() == name_texts(names@).to_set(),
        r@.len() == names@.len(),
{
    let ghost k = names@;
    let r = sort_names(names);
    proof {
        lemma_rearranged_names(k, r@);
    }
    r
}

} // verus!
