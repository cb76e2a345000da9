use vstd::prelude::*;

verus! {

/// Strict lexicographic order on byte sequences, the order in which the
/// sorted-file backend and the transactional backend keep their keys.
pub open spec fn lex_lt(a: Seq<u8>, b: Seq<u8>) -> bool
    decreases a.len(),
{
    if b.len() == 0 {
        false
    } else if a.len() == 0 {
        true
    } else if a[0] < b[0] {
        true
    } else if a[0] > b[0] {
        false
    } else {
        lex_lt(a.drop_first(), b.drop_first())
    }
}

pub proof fn lemma_lex_irrefl(a: Seq<u8>)
    ensures
        !lex_lt(a, a),
    decreases a.len(),
{
    if a.len() > 0 {
        lemma_lex_irrefl(a.drop_first());
    }
}

pub proof fn lemma_lex_asym(a: Seq<u8>, b: Seq<u8>)
    requires
        lex_lt(a, b),
    ensures
        !lex_lt(b, a),
    decreases a.len(),
{
    if b.len() > 0 && a.len() > 0 && a[0] == b[0] {
        lemma_lex_asym(a.drop_first(), b.drop_first());
    }
}

/// Two sequences that neither precede nor succeed one another are equal.
pub proof fn lemma_lex_connected(a: Seq<u8>, b: Seq<u8>)
    requires
        !lex_lt(a, b),
        !lex_lt(b, a),
    ensures
        a == b,
    decreases a.len(),
{
    if a.len() == 0 && b.len() == 0 {
        assert(a =~= b);
    } else if a.len() > 0 && b.len() > 0 {
        lemma_lex_connected(a.drop_first(), b.drop_first());
        assert(a =~= seq![a[0]] + a.drop_first());
        assert(b =~= seq![b[0]] + b.drop_first());
    }
}

pub proof fn lemma_lex_trans(a: Seq<u8>, b: Seq<u8>, c: Seq<u8>)
    requires
        lex_lt(a, b),
        lex_lt(b, c),
    ensures
        lex_lt(a, c),
    decreases a.len(),
{
    if b.len() > 0 && c.len() > 0 && a.len() > 0 {
        if a[0] == b[0] && b[0] == c[0] {
            lemma_lex_trans(a.drop_first(), b.drop_first(), c.drop_first());
        }
    }
}

proof fn lemma_lex_skip_step(a: Seq<u8>, b: Seq<u8>, i: int)
    requires
        0 <= i < a.len(),
        i < b.len(),
        a[i] == b[i],
    ensures
        lex_lt(a.skip(i), b.skip(i)) == lex_lt(a.skip(i + 1), b.skip(i + 1)),
{
    assert(a.skip(i).drop_first() =~= a.skip(i + 1));
    assert(b.skip(i).drop_first() =~= b.skip(i + 1));
}

/// Decides the lexicographic order of two byte strings.
pub fn bytes_lt(a: &[u8], b: &[u8]) -> (r: bool)
    ensures
        r == lex_lt(a@, b@),
{
    let mut i: usize = 0;
    proof {
        assert(a@.skip(0) =~= a@);
        assert(b@.skip(0) =~= b@);
    }
    loop
        invariant
            0 <= i <= a@.len(),
            i <= b@.len(),
            lex_lt(a@, b@) == lex_lt(a@.skip(i as int), b@.skip(i as int)),
        decreases a@.len() - i,
    {
        if i == b.len() {
            return false;
        }
        if i == a.len() {
            return true;
        }
        let x = a[i];
        let y = b[i];
        assert(a@.skip(i as int)[0] == a@[i as int]);
        assert(b@.skip(i as int)[0] == b@[i as int]);
        if x < y {
            return true;
        }
        if x > y {
            return false;
        }
        proof {
            lemma_lex_skip_step(a@, b@, i as int);
        }
        i = i + 1;
    }
}

/// Whether two byte strings hold the same bytes.
pub fn bytes_eq(a: &[u8], b: &[u8]) -> (r: bool)
    ensures
        r == (a@ == b@),
{
    if a.len() != b.len() {
        return false;
    }
    let n = a.len();
    let mut i: usize = 0;
    while i < n
        invariant
            0 <= i <= n,
            n == a@.len() == b@.len(),
            forall|j: int| 0 <= j < i ==> a@[j] == b@[j],
        decreases n - i,
    {
        if a[i] != b[i] {
            return false;
        }
        i = i + 1;
    }
    proof {
        assert(a@ =~= b@);
    }
    true
}

/// A sequence of keys in strictly ascending lexicographic order, with no
/// duplicate anywhere.
pub open spec fn strictly_sorted(s: Seq<Seq<u8>>) -> bool {
    forall|i: int, j: int| 0 <= i < j < s.len() ==> lex_lt(s[i], s[j])
}

/// Keys sorted when only neighbours are compared.
pub open spec fn adjacent_sorted(s: Seq<Seq<u8>>) -> bool {
    forall|i: int| 0 <= i < s.len() - 1 ==> lex_lt(#[trigger] s[i], s[i + 1])
}

pub proof fn lemma_adjacent_implies_strict(s: Seq<Seq<u8>>)
    requires
        adjacent_sorted(s),
    ensures
        strictly_sorted(s),
{
    assert forall|i: int, j: int| 0 <= i < j < s.len() implies lex_lt(s[i], s[j]) by {
        lemma_chain(s, i, j);
    }
}

proof fn lemma_chain(s: Seq<Seq<u8>>, i: int, j: int)
    requires
        adjacent_sorted(s),
        0 <= i < j < s.len(),
    ensures
        lex_lt(s[i], s[j]),
    decreases j - i,
{
    if j == i + 1 {
    } else {
        lemma_chain(s, i, j - 1);
        lemma_lex_trans(s[i], s[j - 1], s[j]);
    }
}

/// Two strictly sorted sequences with the same members are the same sequence.
pub proof fn lemma_sorted_same_set_equal(a: Seq<Seq<u8>>, b: Seq<Seq<u8>>)
    requires
        strictly_sorted(a),
        strictly_sorted(b),
        a.to_set() == b.to_set(),
    ensures
        a == b,
    decreases a.len(),
{
    if a.len() == 0 {
        if b.len() > 0 {
            assert(b.to_set().contains(b[0]));
            assert(a.to_set().contains(b[0]));
        }
        assert(a =~= b);
    } else if b.len() == 0 {
        assert(a.to_set().contains(a[0]));
        assert(b.to_set().contains(a[0]));
    } else {
        // The least member of each side is its first element, so they agree.
        assert(a.to_set().contains(a[0]));
        assert(b.to_set().contains(b[0]));
        assert(a.to_set().contains(b[0]));
        assert(b.to_set().contains(a[0]));
        let ia = choose|k: int| 0 <= k < a.len() && a[k] == b[0];
        let ib = choose|k: int| 0 <= k < b.len() && b[k] == a[0];
        if a[0] != b[0] {
            assert(ia > 0 && ib > 0);
            assert(lex_lt(a[0], a[ia]));
            assert(lex_lt(b[0], b[ib]));
            lemma_lex_asym(a[0], b[0]);
            assert(false);
        }
        let at = a.drop_first();
        let bt = b.drop_first();
        assert(strictly_sorted(at)) by {
            assert forall|i: int, j: int| 0 <= i < j < at.len() implies lex_lt(at[i], at[j]) by {
                assert(at[i] == a[i + 1] && at[j] == a[j + 1]);
            }
        }
        assert(strictly_sorted(bt)) by {
            assert forall|i: int, j: int| 0 <= i < j < bt.len() implies lex_lt(bt[i], bt[j]) by {
                assert(bt[i] == b[i + 1] && bt[j] == b[j + 1]);
            }
        }
        assert(at.to_set() =~= bt.to_set()) by {
            assert forall|x: Seq<u8>| at.to_set().contains(x) implies bt.to_set().contains(x) by {
                lemma_tail_member(a, b, x);
            }
            assert forall|x: Seq<u8>| bt.to_set().contains(x) implies at.to_set().contains(x) by {
                lemma_tail_member(b, a, x);
            }
        }
        lemma_sorted_same_set_equal(at, bt);
        assert(a =~= seq![a[0]] + at);
        assert(b =~= seq![b[0]] + bt);
    }
}

proof fn lemma_tail_member(a: Seq<Seq<u8>>, b: Seq<Seq<u8>>, x: Seq<u8>)
    requires
        strictly_sorted(a),
        strictly_sorted(b),
        a.len() > 0,
        b.len() > 0,
        a[0] == b[0],
        a.to_set() == b.to_set(),
        a.drop_first().to_set().contains(x),
    ensures
        b.drop_first().to_set().contains(x),
{
    let at = a.drop_first();
    let k = choose|k: int| 0 <= k < at.len() && at[k] == x;
    assert(a[k + 1] == x);
    assert(a.to_set().contains(x));
    assert(b.to_set().contains(x));
    let m = choose|m: int| 0 <= m < b.len() && b[m] == x;
    assert(lex_lt(a[0], x));
    if m == 0 {
        lemma_lex_irrefl(x);
        assert(false);
    }
    assert(b.drop_first()[m - 1] == x);
    assert(b.drop_first().to_set().contains(x));
}

/// The byte strings behind a sequence of owned byte vectors.
pub open spec fn views(s: Seq<Vec<u8>>) -> Seq<Seq<u8>> {
    s.map_values(|x: Vec<u8>| x@)
}

proof fn lemma_insert_to_set(s: Seq<Seq<u8>>, j: int, x: Seq<u8>)
    requires
        0 <= j <= s.len(),
    ensures
        s.insert(j, x).to_set() == s.to_set().insert(x),
{
    let t = s.insert(j, x);
    assert forall|y: Seq<u8>| t.to_set().contains(y) implies s.to_set().insert(x).contains(y) by {
        let k = choose|k: int| 0 <= k < t.len() && t[k] == y;
        if k < j {
            assert(s[k] == y);
        } else if k > j {
            assert(s[k - 1] == y);
        }
    }
    assert forall|y: Seq<u8>| s.to_set().insert(x).contains(y) implies t.to_set().contains(y) by {
        if y == x {
            assert(t[j] == y);
        } else {
            let k = choose|k: int| 0 <= k < s.len() && s[k] == y;
            if k < j {
                assert(t[k] == y);
            } else {
                assert(t[k + 1] == y);
            }
        }
    }
    assert(t.to_set() =~= s.to_set().insert(x));
}

/// Sorts a collection of keys into strictly ascending order, removing
/// duplicates: the resulting sequence holds exactly the distinct members
/// of the input.
pub fn sort_dedup_keys(input: Vec<Vec<u8>>) -> (r: Vec<Vec<u8>>)
    ensures
        strictly_sorted(views(r@)),
        views(r@).to_set() == views(input@).to_set(),
{
    let ghost all = views(input@).to_set();
    let mut rest = input;
    let mut out: Vec<Vec<u8>> = Vec::new();
    proof {
        assert(views(out@).to_set() =~= Set::<Seq<u8>>::empty());
    }
    loop
        invariant
            strictly_sorted(views(out@)),
            views(out@).to_set() + views(rest@).to_set() == all,
        ensures
            rest@.len() == 0,
            strictly_sorted(views(out@)),
            views(out@).to_set() + views(rest@).to_set() == all,
        decreases rest@.len(),
    {
        let ghost rest0 = rest@;
        let w = match rest.pop() {
            Some(w) => w,
            None => {
                break;
            },
        };
        proof {
            assert(rest0 =~= rest@.push(w));
            let prev = views(rest0);
            assert(prev =~= views(rest@).push(w@));
            assert(prev.to_set() =~= views(rest@).to_set().insert(w@)) by {
                assert forall|y: Seq<u8>| prev.to_set().contains(y) implies views(
                    rest@,
                ).to_set().insert(w@).contains(y) by {
                    let k = choose|k: int| 0 <= k < prev.len() && prev[k] == y;
                    if k < prev.len() - 1 {
                        assert(views(rest@)[k] == y);
                    }
                }
                assert forall|y: Seq<u8>| views(rest@).to_set().insert(w@).contains(y) implies prev
                    .to_set().contains(y) by {
                    if y == w@ {
                        assert(prev[prev.len() - 1] == y);
                    } else {
                        let k = choose|k: int| 0 <= k < views(rest@).len() && views(rest@)[k] == y;
                        assert(prev[k] == y);
                    }
                }
            }
        }
        let mut j: usize = 0;
        while j < out.len() && bytes_lt(out[j].as_slice(), w.as_slice())
            invariant
                0 <= j <= out@.len(),
                forall|k: int| 0 <= k < j ==> lex_lt(views(out@)[k], w@),
            decreases out@.len() - j,
        {
            j = j + 1;
        }
        if j < out.len() && bytes_eq(out[j].as_slice(), w.as_slice()) {
            // Already present: drop the duplicate.
            proof {
                assert(views(out@)[j as int] == w@);
                assert(views(out@).to_set().contains(w@));
                assert(views(out@).to_set() + views(rest@).to_set().insert(w@) =~= views(
                    out@,
                ).to_set() + views(rest@).to_set());
            }
        } else {
            proof {
                if j < out@.len() && !lex_lt(w@, views(out@)[j as int]) {
                    lemma_lex_connected(views(out@)[j as int], w@);
                    assert(false);
                }
            }
            let ghost old_out = views(out@);
            out.insert(j, w);
            proof {
                assert(views(out@) =~= old_out.insert(j as int, w@));
                lemma_insert_to_set(old_out, j as int, w@);
                let now = old_out.insert(j as int, w@);
                assert(strictly_sorted(now)) by {
                    assert forall|p: int, q: int| 0 <= p < q < now.len() implies lex_lt(
                        now[p],
                        now[q],
                    ) by {
                        if q < j {
                        } else if p < j && q == j {
                        } else if p < j && q > j {
                            assert(now[p] == old_out[p] && now[q] == old_out[q - 1]);
                            if p < j && j <= q - 1 && old_out.len() > j {
                            }
                            if q - 1 == j {
                                if j < old_out.len() {
                                    lemma_lex_trans(now[p], w@, old_out[j as int]);
                                }
                            } else {
                            }
                        } else if p == j {
                            assert(now[q] == old_out[q - 1]);
                            if q - 1 == j {
                            } else {
                                lemma_lex_trans(w@, old_out[j as int], old_out[q - 1]);
                            }
                        } else {
                            assert(now[p] == old_out[p - 1] && now[q] == old_out[q - 1]);
                        }
                    }
                }
            }
        }
    }
    proof {
        assert(views(rest@).to_set() =~= Set::<Seq<u8>>::empty());
        assert(views(out@).to_set() =~= all);
    }
    out
}

/// The position of the first key not lexicographically below `target`,
/// or `keys.len()` when every key is below it: the landing point of a
/// lower-bound seek.
pub open spec fn lower_bound(keys: Seq<Seq<u8>>, target: Seq<u8>) -> int
    decreases keys.len(),
{
    if keys.len() == 0 {
        0
    } else if !lex_lt(keys[0], target) {
        0
    } else {
        1 + lower_bound(keys.drop_first(), target)
    }
}

/// A lower-bound seek for a key that is present in a strictly sorted
/// sequence lands exactly on that key's position.
pub proof fn lemma_lower_bound_exact(keys: Seq<Seq<u8>>, i: int)
    requires
        strictly_sorted(keys),
        0 <= i < keys.len(),
    ensures
        lower_bound(keys, keys[i]) == i,
    decreases keys.len(),
{
    if i == 0 {
        lemma_lex_irrefl(keys[0]);
    } else {
        assert(lex_lt(keys[0], keys[i]));
        let t = keys.drop_first();
        assert(strictly_sorted(t)) by {
            assert forall|p: int, q: int| 0 <= p < q < t.len() implies lex_lt(t[p], t[q]) by {
                assert(t[p] == keys[p + 1] && t[q] == keys[q + 1]);
            }
        }
        assert(t[i - 1] == keys[i]);
        lemma_lower_bound_exact(t, i - 1);
    }
}

/// The byte at position `k` (from the most significant end) of the 8-byte
/// big-endian form of `x`.
pub open spec fn be_byte(x: u64, k: int) -> u8 {
    (x >> ((7 - k) * 8) as u64) as u8
}

/// The 8-byte big-endian form of `x`, the dense-mode key encoding.
pub open spec fn be8(x: u64) -> Seq<u8> {
    Seq::new(8, |k: int| be_byte(x, k))
}

/// Encodes a counter as a fixed-width big-endian key.
pub fn encode_be(x: u64) -> (r: Vec<u8>)
    ensures
        r@ == be8(x),
{
    let mut r: Vec<u8> = Vec::new();
    r.push((x >> 56) as u8);
    r.push((x >> 48) as u8);
    r.push((x >> 40) as u8);
    r.push((x >> 32) as u8);
    r.push((x >> 24) as u8);
    r.push((x >> 16) as u8);
    r.push((x >> 8) as u8);
    r.push(x as u8);
    proof {
        assert(x as u8 == (x >> 0) as u8) by (bit_vector);
        assert(r@ =~= be8(x));
    }
    r
}

/// Equal prefixes with a smaller byte at the first difference give the
/// lexicographically smaller sequence.
proof fn lemma_lex_at_first_difference(a: Seq<u8>, b: Seq<u8>, k: int)
    requires
        0 <= k < a.len(),
        k < b.len(),
        forall|j: int| 0 <= j < k ==> a[j] == b[j],
        a[k] < b[k],
    ensures
        lex_lt(a, b),
    decreases k,
{
    if k == 0 {
    } else {
        lemma_lex_at_first_difference(a.drop_first(), b.drop_first(), k - 1);
    }
}

/// Big-endian encoding preserves numeric order as lexicographic key order.
pub proof fn lemma_be8_order(x: u64, y: u64)
    requires
        x < y,
    ensures
        lex_lt(be8(x), be8(y)),
{
    let a = be8(x);
    let b = be8(y);
    assert(forall|k: int| 0 <= k < 8 ==> #[trigger] a[k] == be_byte(x, k));
    assert(forall|k: int| 0 <= k < 8 ==> #[trigger] b[k] == be_byte(y, k));
    assert(((x >> 56) as u8) < ((y >> 56) as u8) || (((x >> 56) as u8) == ((y >> 56) as u8) && (
        ((x >> 48) as u8) < ((y >> 48) as u8) || (((x >> 48) as u8) == ((y >> 48) as u8) && (
        ((x >> 40) as u8) < ((y >> 40) as u8) || (((x >> 40) as u8) == ((y >> 40) as u8) && (
        ((x >> 32) as u8) < ((y >> 32) as u8) || (((x >> 32) as u8) == ((y >> 32) as u8) && (
        ((x >> 24) as u8) < ((y >> 24) as u8) || (((x >> 24) as u8) == ((y >> 24) as u8) && (
        ((x >> 16) as u8) < ((y >> 16) as u8) || (((x >> 16) as u8) == ((y >> 16) as u8) && (
        ((x >> 8) as u8) < ((y >> 8) as u8) || (((x >> 8) as u8) == ((y >> 8) as u8) && (
        (x as u8) < (y as u8)))))))))))))))) by (bit_vector)
        requires
            x < y,
    ;
    assert(be_byte(x, 7) == x as u8 && be_byte(y, 7) == y as u8) by (bit_vector);
    if be_byte(x, 0) < be_byte(y, 0) {
        lemma_lex_at_first_difference(a, b, 0);
    } else if be_byte(x, 1) < be_byte(y, 1) {
        lemma_lex_at_first_difference(a, b, 1);
    } else if be_byte(x, 2) < be_byte(y, 2) {
        lemma_lex_at_first_difference(a, b, 2);
    } else if be_byte(x, 3) < be_byte(y, 3) {
        lemma_lex_at_first_difference(a, b, 3);
    } else if be_byte(x, 4) < be_byte(y, 4) {
        lemma_lex_at_first_difference(a, b, 4);
    } else if be_byte(x, 5) < be_byte(y, 5) {
        lemma_lex_at_first_difference(a, b, 5);
    } else if be_byte(x, 6) < be_byte(y, 6) {
        lemma_lex_at_first_difference(a, b, 6);
    } else {
        lemma_lex_at_first_difference(a, b, 7);
    }
}

} // verus!
