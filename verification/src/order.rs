use vstd::prelude::*;
use vstd::utf8::*;

verus! {

/// Strict lexicographic order on byte sequences: a proper prefix comes
/// first, otherwise the first differing byte decides.
pub open spec fn bytes_lt(a: Seq<u8>, b: Seq<u8>) -> bool
    decreases a.len(),
{
    if a.len() == 0 {
        b.len() > 0
    } else if b.len() == 0 {
        false
    } else if a[0] < b[0] {
        true
    } else if a[0] > b[0] {
        false
    } else {
        bytes_lt(a.drop_first(), b.drop_first())
    }
}

/// The order of `String`s: lexicographic on their UTF-8 bytes.
pub open spec fn text_lt(a: Seq<char>, b: Seq<char>) -> bool {
    bytes_lt(encode_utf8(a), encode_utf8(b))
}

/// Strictly ascending in the order of `String`s, hence free of duplicates.
pub open spec fn strictly_ascending(s: Seq<Seq<char>>) -> bool {
    forall|i: int, j: int| 0 <= i < j < s.len() ==> text_lt(#[trigger] s[i], #[trigger] s[j])
}

/// The texts held by a vector of strings.
pub open spec fn texts(v: Seq<String>) -> Seq<Seq<char>> {
    v.map_values(|s: String| s@)
}

pub proof fn lemma_bytes_lt_irreflexive(a: Seq<u8>)
    ensures
        !bytes_lt(a, a),
    decreases a.len(),
{
    if a.len() > 0 {
        lemma_bytes_lt_irreflexive(a.drop_first());
    }
}

pub proof fn lemma_bytes_lt_transitive(a: Seq<u8>, b: Seq<u8>, c: Seq<u8>)
    requires
        bytes_lt(a, b),
        bytes_lt(b, c),
    ensures
        bytes_lt(a, c),
    decreases a.len(),
{
    if a.len() > 0 && b.len() > 0 && c.len() > 0 && a[0] == b[0] && b[0] == c[0] {
        lemma_bytes_lt_transitive(a.drop_first(), b.drop_first(), c.drop_first());
    }
}

/// Two byte sequences neither of which precedes the other are equal.
pub proof fn lemma_bytes_lt_total(a: Seq<u8>, b: Seq<u8>)
    requires
        !bytes_lt(a, b),
        !bytes_lt(b, a),
    ensures
        a == b,
    decreases a.len(),
{
    if a.len() > 0 && b.len() > 0 {
        lemma_bytes_lt_total(a.drop_first(), b.drop_first());
        assert(a =~= seq![a[0]] + a.drop_first());
        assert(b =~= seq![b[0]] + b.drop_first());
    }
}

pub proof fn lemma_text_lt_irreflexive(a: Seq<char>)
    ensures
        !text_lt(a, a),
{
    lemma_bytes_lt_irreflexive(encode_utf8(a));
}

pub proof fn lemma_text_lt_transitive(a: Seq<char>, b: Seq<char>, c: Seq<char>)
    requires
        text_lt(a, b),
        text_lt(b, c),
    ensures
        text_lt(a, c),
{
    lemma_bytes_lt_transitive(encode_utf8(a), encode_utf8(b), encode_utf8(c));
}

/// Two texts neither of which precedes the other are equal.
pub proof fn lemma_text_lt_total(a: Seq<char>, b: Seq<char>)
    requires
        !text_lt(a, b),
        !text_lt(b, a),
    ensures
        a == b,
{
    lemma_bytes_lt_total(encode_utf8(a), encode_utf8(b));
    encode_utf8_decode_utf8(a);
    encode_utf8_decode_utf8(b);
}

/// Where two byte sequences first differ, the one with the smaller byte
/// (as an unsigned number) comes first.
pub proof fn lemma_bytes_lt_first_difference(a: Seq<u8>, b: Seq<u8>, k: int)
    requires
        0 <= k < a.len(),
        k < b.len(),
        a.take(k) == b.take(k),
        a[k] < b[k],
    ensures
        bytes_lt(a, b),
        !bytes_lt(b, a),
    decreases k,
{
    if k > 0 {
        assert(a[0] == a.take(k)[0]);
        assert(b[0] == b.take(k)[0]);
        assert(a.drop_first().take(k - 1) =~= b.drop_first().take(k - 1)) by {
            assert forall|j: int| 0 <= j < k - 1 implies a.drop_first()[j] == b.drop_first()[j] by {
                assert(a.drop_first()[j] == a[j + 1]);
                assert(b.drop_first()[j] == b[j + 1]);
                assert(a[j + 1] == a.take(k)[j + 1]);
                assert(b[j + 1] == b.take(k)[j + 1]);
            }
        }
        assert(a.drop_first()[k - 1] == a[k]);
        assert(b.drop_first()[k - 1] == b[k]);
        lemma_bytes_lt_first_difference(a.drop_first(), b.drop_first(), k - 1);
    }
}

/// A proper prefix comes before the sequences it begins.
pub proof fn lemma_bytes_lt_proper_prefix(a: Seq<u8>, b: Seq<u8>)
    requires
        a.len() < b.len(),
        b.take(a.len() as int) == a,
    ensures
        bytes_lt(a, b),
        !bytes_lt(b, a),
    decreases a.len(),
{
    if a.len() > 0 {
        assert(b[0] == b.take(a.len() as int)[0]);
        assert(b.drop_first().take(a.drop_first().len() as int) =~= a.drop_first()) by {
            assert forall|j: int| 0 <= j < a.len() - 1 implies b.drop_first()[j] == a.drop_first()[j] by {
                assert(b.drop_first()[j] == b[j + 1]);
                assert(b[j + 1] == b.take(a.len() as int)[j + 1]);
            }
        }
        lemma_bytes_lt_proper_prefix(a.drop_first(), b.drop_first());
    }
}

/// Texts are ordered by their UTF-8 bytes: where those first differ, the
/// text with the smaller byte comes first, and a text whose bytes begin
/// another's longer bytes comes before it.
pub proof fn lemma_text_lt_by_utf8_bytes(a: Seq<char>, b: Seq<char>, k: int)
    requires
        0 <= k <= encode_utf8(a).len(),
        k <= encode_utf8(b).len(),
        encode_utf8(a).take(k) == encode_utf8(b).take(k),
        (k < encode_utf8(a).len() && k < encode_utf8(b).len() && encode_utf8(a)[k] < encode_utf8(
            b,
        )[k]) || (k == encode_utf8(a).len() && k < encode_utf8(b).len()),
    ensures
        text_lt(a, b),
        !text_lt(b, a),
{
    let x = encode_utf8(a);
    let y = encode_utf8(b);
    if k < x.len() && k < y.len() && x[k] < y[k] {
        lemma_bytes_lt_first_difference(x, y, k);
    } else {
        assert(x.take(k) =~= x);
        lemma_bytes_lt_proper_prefix(x, y);
    }
}

/// Compares two byte slices in the lexicographic order.
fn slice_lt(a: &[u8], b: &[u8]) -> (lt: bool)
    ensures
        lt == bytes_lt(a@, b@),
{
    let mut i: usize = 0;
    assert(a@.skip(0) =~= a@);
    assert(b@.skip(0) =~= b@);
    while i < a.len() && i < b.len() && a[i] == b[i]
        invariant
            i <= a@.len(),
            i <= b@.len(),
            bytes_lt(a@, b@) == bytes_lt(a@.skip(i as int), b@.skip(i as int)),
        decreases a.len() - i,
    {
        assert(a@.skip(i as int).drop_first() =~= a@.skip(i + 1));
        assert(b@.skip(i as int).drop_first() =~= b@.skip(i + 1));
        i = i + 1;
    }
    if i == a.len() {
        i < b.len()
    } else if i == b.len() {
        false
    } else {
        a[i] < b[i]
    }
}

/// Compares two strings in the order of `String`s.
pub fn string_lt(a: &String, b: &String) -> (lt: bool)
    ensures
        lt == text_lt(a@, b@),
{
    slice_lt(a.as_str().as_bytes(), b.as_str().as_bytes())
}

/// Inserts `item` into a strictly ascending vector, where it belongs; a
/// text already present is not inserted twice.
pub fn insert_ascending(v: &mut Vec<String>, item: String)
    requires
        strictly_ascending(texts(old(v)@)),
    ensures
        strictly_ascending(texts(final(v)@)),
        texts(final(v)@).to_set() == texts(old(v)@).to_set().insert(item@),
{
    let ghost old_texts = texts(v@);
    let mut i: usize = 0;
    while i < v.len() && string_lt(&v[i], &item)
        invariant
            i <= v@.len(),
            texts(v@) == old_texts,
            forall|j: int| 0 <= j < i ==> text_lt(#[trigger] texts(v@)[j], item@),
        decreases v.len() - i,
    {
        i = i + 1;
    }
    if i < v.len() && v[i] == item {
        assert(old_texts[i as int] == item@);
        assert(old_texts.to_set() =~= old_texts.to_set().insert(item@)) by {
            assert(old_texts.contains(item@));
        }
        return;
    }
    proof {
        if i < old_texts.len() {
            if !text_lt(item@, old_texts[i as int]) {
                lemma_text_lt_total(old_texts[i as int], item@);
            }
            assert(text_lt(item@, old_texts[i as int]));
            assert forall|j: int| i < j < old_texts.len() implies text_lt(item@, old_texts[j]) by {
                lemma_text_lt_transitive(item@, old_texts[i as int], old_texts[j]);
            }
        }
    }
    v.insert(i, item);
    proof {
        let new_texts = texts(v@);
        assert(new_texts =~= old_texts.insert(i as int, item@));
        assert forall|a: int, b: int| 0 <= a < b < new_texts.len() implies text_lt(
            #[trigger] new_texts[a],
            #[trigger] new_texts[b],
        ) by {
            if b < i {
            } else if b == i {
            } else if a < i {
                assert(new_texts[b] == old_texts[b - 1]);
                assert(text_lt(old_texts[a], item@));
                assert(text_lt(item@, old_texts[b - 1]));
                lemma_text_lt_transitive(old_texts[a], item@, old_texts[b - 1]);
            } else if a == i {
            } else {
            }
        }
        assert(new_texts.to_set() =~= old_texts.to_set().insert(item@)) by {
            assert forall|t: Seq<char>| new_texts.contains(t) implies old_texts.to_set().insert(
                item@,
            ).contains(t) by {
                let k = choose|k: int| 0 <= k < new_texts.len() && new_texts[k] == t;
                if k < i {
                    assert(old_texts[k] == t);
                } else if k > i {
                    assert(old_texts[k - 1] == t);
                }
            }
            assert forall|t: Seq<char>| old_texts.to_set().insert(item@).contains(t) implies new_texts.contains(t) by {
                if t == item@ {
                    assert(new_texts[i as int] == t);
                } else {
                    let k = choose|k: int| 0 <= k < old_texts.len() && old_texts[k] == t;
                    if k < i {
                        assert(new_texts[k] == t);
                    } else {
                        assert(new_texts[k + 1] == t);
                    }
                }
            }
        }
    }
}

/// The texts of `items`, in the order of `String`s, each once: what a
/// `BTreeSet<String>` built from `items` yields when walked.
pub fn ascending_unique(items: Vec<String>) -> (out: Vec<String>)
    ensures
        strictly_ascending(texts(out@)),
        texts(out@).to_set() == texts(items@).to_set(),
{
    let mut out: Vec<String> = Vec::new();
    let mut i: usize = 0;
    let n = items.len();
    while i < n
        invariant
            n == items@.len(),
            i <= n,
            strictly_ascending(texts(out@)),
            texts(out@).to_set() == texts(items@.take(i as int)).to_set(),
        decreases n - i,
    {
        let item = items[i].clone();
        insert_ascending(&mut out, item);
        proof {
            assert(texts(items@.take(i + 1)) =~= texts(items@.take(i as int)).push(items@[i as int]@));
            texts(items@.take(i as int)).lemma_push_to_set_commute(items@[i as int]@);
        }
        i = i + 1;
    }
    assert(items@.take(n as int) =~= items@);
    out
}

/// Two strictly ascending sequences with the same elements are equal: the
/// order in which texts are declared, and repeats among them, do not change
/// what is reported.
pub proof fn lemma_ascending_determined_by_set(a: Seq<Seq<char>>, b: Seq<Seq<char>>)
    requires
        strictly_ascending(a),
        strictly_ascending(b),
        a.to_set() == b.to_set(),
    ensures
        a == b,
    decreases a.len(),
{
    if a.len() == 0 {
        if b.len() > 0 {
            assert(b.to_set().contains(b[0]));
        }
        return;
    }
    if b.len() == 0 {
        assert(a.to_set().contains(a[0]));
        return;
    }
    // The first elements are the least of the common set, hence equal.
    assert(b.to_set().contains(a[0]));
    assert(a.to_set().contains(b[0]));
    let ka = choose|k: int| 0 <= k < b.len() && b[k] == a[0];
    let kb = choose|k: int| 0 <= k < a.len() && a[k] == b[0];
    if a[0] != b[0] {
        assert(ka > 0);
        assert(kb > 0);
        assert(text_lt(b[0], a[0]));
        assert(text_lt(a[0], b[0]));
        lemma_text_lt_transitive(a[0], b[0], a[0]);
        lemma_text_lt_irreflexive(a[0]);
    }
    let ra = a.drop_first();
    let rb = b.drop_first();
    assert(ra.to_set() =~= rb.to_set()) by {
        assert forall|t: Seq<char>| ra.contains(t) implies rb.contains(t) by {
            let k = choose|k: int| 0 <= k < ra.len() && ra[k] == t;
            assert(a[k + 1] == t);
            assert(text_lt(a[0], t));
            assert(b.to_set().contains(t));
            let m = choose|m: int| 0 <= m < b.len() && b[m] == t;
            if m == 0 {
                lemma_text_lt_irreflexive(t);
            }
            assert(rb[m - 1] == t);
        }
        assert forall|t: Seq<char>| rb.contains(t) implies ra.contains(t) by {
            let k = choose|k: int| 0 <= k < rb.len() && rb[k] == t;
            assert(b[k + 1] == t);
            assert(text_lt(b[0], t));
            assert(a.to_set().contains(t));
            let m = choose|m: int| 0 <= m < a.len() && a[m] == t;
            if m == 0 {
                lemma_text_lt_irreflexive(t);
            }
            assert(ra[m - 1] == t);
        }
    }
    lemma_ascending_determined_by_set(ra, rb);
    assert(a =~= seq![a[0]] + ra);
    assert(b =~= seq![b[0]] + rb);
}

} // verus!
