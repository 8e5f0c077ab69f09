//! Sorting user names without regard to letter case.
use vstd::prelude::*;

verus! {

/// The lowercase form of `s`.
pub uninterp spec fn lower_of(s: Seq<char>) -> Seq<char>;

/// Relies on `str::to_lowercase`: the lowercase form depends on the characters alone.
#[verifier::external_body]
fn lowercase(s: &str) -> (r: String)
    ensures
        r@ == lower_of(s@),
{
    s.to_lowercase()
}

/// Lexicographic order on character sequences, by code point; a prefix comes first.
pub open spec fn text_le(a: Seq<char>, b: Seq<char>) -> bool
    decreases a.len(),
{
    if a.len() == 0 {
        true
    } else if b.len() == 0 {
        false
    } else if a[0] != b[0] {
        a[0] < b[0]
    } else {
        text_le(a.drop_first(), b.drop_first())
    }
}

/// Position `i` goes before position `j` in a stable sort by `keys`: its key is
/// smaller, or the keys are equal and `i` came first.
pub open spec fn goes_before(keys: Seq<Seq<char>>, i: int, j: int) -> bool {
    (text_le(keys[i], keys[j]) && keys[i] != keys[j]) || (keys[i] == keys[j] && i < j)
}

/// `order` lists each position below `n` exactly once.
pub open spec fn is_index_permutation(order: Seq<usize>, n: int) -> bool {
    &&& order.len() == n
    &&& forall|a: int| 0 <= a < n ==> #[trigger] order[a] < n
    &&& forall|a: int, b: int| 0 <= a < b < n ==> order[a] != order[b]
}

/// `order` puts the positions of `keys` in the order of a stable sort by key.
pub open spec fn is_stable_order(order: Seq<usize>, keys: Seq<Seq<char>>) -> bool {
    &&& is_index_permutation(order, keys.len() as int)
    &&& forall|a: int, b: int|
        0 <= a < b < order.len() ==> goes_before(keys, order[a] as int, order[b] as int)
}

/// `after` is `before` stably sorted by `keys`.
pub open spec fn stably_sorted_by(
    before: Seq<String>,
    after: Seq<String>,
    keys: Seq<Seq<char>>,
) -> bool {
    exists|order: Seq<usize>|
        {
            &&& is_stable_order(order, keys)
            &&& after.len() == before.len()
            &&& forall|k: int| 0 <= k < after.len() ==> after[k] == before[order[k] as int]
        }
}

/// The lowercase form of each name.
pub open spec fn lowercase_keys(users: Seq<String>) -> Seq<Seq<char>> {
    users.map_values(|u: String| lower_of(u@))
}

/// The view of each text.
pub open spec fn text_views(keys: Seq<String>) -> Seq<Seq<char>> {
    keys.map_values(|k: String| k@)
}

proof fn lemma_text_le_reflexive(a: Seq<char>)
    ensures
        text_le(a, a),
    decreases a.len(),
{
    if a.len() > 0 {
        lemma_text_le_reflexive(a.drop_first());
    }
}

proof fn lemma_text_le_total(a: Seq<char>, b: Seq<char>)
    ensures
        text_le(a, b) || text_le(b, a),
    decreases a.len(),
{
    if a.len() > 0 && b.len() > 0 {
        if a[0] == b[0] {
            lemma_text_le_total(a.drop_first(), b.drop_first());
        }
    }
}

proof fn lemma_text_le_antisymmetric(a: Seq<char>, b: Seq<char>)
    requires
        text_le(a, b),
        text_le(b, a),
    ensures
        a == b,
    decreases a.len(),
{
    if a.len() > 0 && b.len() > 0 {
        lemma_text_le_antisymmetric(a.drop_first(), b.drop_first());
        assert(a =~= seq![a[0]] + a.drop_first());
        assert(b =~= seq![b[0]] + b.drop_first());
    } else {
        assert(a =~= b);
    }
}

proof fn lemma_text_le_transitive(a: Seq<char>, b: Seq<char>, c: Seq<char>)
    requires
        text_le(a, b),
        text_le(b, c),
    ensures
        text_le(a, c),
    decreases a.len(),
{
    if a.len() > 0 && b.len() > 0 && c.len() > 0 && a[0] == b[0] && b[0] == c[0] {
        lemma_text_le_transitive(a.drop_first(), b.drop_first(), c.drop_first());
    }
}

/// Whether `a` comes no later than `b` in lexicographic order.
fn text_le_exec(a: &str, b: &str) -> (r: bool)
    ensures
        r == text_le(a@, b@),
{
    let na = a.unicode_len();
    let nb = b.unicode_len();
    let mut i: usize = 0;
    assert(a@.skip(0) =~= a@);
    assert(b@.skip(0) =~= b@);
    while i < na && i < nb
        invariant
            na == a@.len(),
            nb == b@.len(),
            i <= na,
            i <= nb,
            text_le(a@, b@) == text_le(a@.skip(i as int), b@.skip(i as int)),
        decreases na - i,
    {
        let ca = a.get_char(i);
        let cb = b.get_char(i);
        if ca != cb {
            return ca < cb;
        }
        assert(a@.skip(i as int).drop_first() =~= a@.skip(i as int + 1));
        assert(b@.skip(i as int).drop_first() =~= b@.skip(i as int + 1));
        i = i + 1;
    }
    i == na
}

/// The positions of `keys` in the order of a stable sort by key.
fn stable_order(keys: &Vec<String>) -> (order: Vec<usize>)
    ensures
        is_stable_order(order@, text_views(keys@)),
{
    let ghost ks = text_views(keys@);
    let n = keys.len();
    let mut order: Vec<usize> = Vec::new();
    let mut i: usize = 0;
    while i < n
        invariant
            n == keys@.len(),
            ks == text_views(keys@),
            i <= n,
            order@.len() == i,
            forall|a: int| 0 <= a < i ==> #[trigger] order@[a] < i,
            forall|a: int, b: int| 0 <= a < b < i ==> order@[a] != order@[b],
            forall|a: int, b: int|
                0 <= a < b < i ==> goes_before(ks, order@[a] as int, order@[b] as int),
        decreases n - i,
    {
        let mut j: usize = order.len();
        while j > 0 && !text_le_exec(keys[order[j - 1]].as_str(), keys[i].as_str())
            invariant
                n == keys@.len(),
                ks == text_views(keys@),
                i < n,
                order@.len() == i,
                forall|a: int| 0 <= a < i ==> #[trigger] order@[a] < i,
                j <= i,
                forall|t: int| j <= t < i ==> !text_le(ks[#[trigger] order@[t] as int], ks[i as int]),
            decreases j,
        {
            j = j - 1;
        }
        let ghost before = order@;
        order.insert(j, i);
        proof {
            let ki = ks[i as int];
            assert forall|a: int, b: int| 0 <= a < b < i + 1 implies goes_before(
                ks,
                order@[a] as int,
                order@[b] as int,
            ) by {
                if a < j && b == j {
                    let p = before[a] as int;
                    let q = before[j - 1] as int;
                    assert(text_le(ks[q], ki));
                    if a < j - 1 {
                        assert(goes_before(ks, p, q));
                        lemma_text_le_reflexive(ks[p]);
                        lemma_text_le_transitive(ks[p], ks[q], ki);
                    }
                } else if a == j && b > j {
                    let q = before[b - 1] as int;
                    assert(!text_le(ks[q], ki));
                    lemma_text_le_total(ks[q], ki);
                    lemma_text_le_reflexive(ki);
                } else if a < j && b > j {
                    assert(goes_before(ks, before[a] as int, before[b - 1] as int));
                } else if a > j {
                    assert(goes_before(ks, before[a - 1] as int, before[b - 1] as int));
                } else {
                    assert(goes_before(ks, before[a] as int, before[b] as int));
                }
            }
            assert forall|a: int| 0 <= a < i + 1 implies #[trigger] order@[a] < i + 1 by {
                if a < j {
                    assert(order@[a] == before[a]);
                } else if a > j {
                    assert(order@[a] == before[a - 1]);
                }
            }
            assert forall|a: int, b: int| 0 <= a < b < i + 1 implies order@[a] != order@[b] by {
                if a != j && b != j {
                    let a0 = if a < j { a } else { a - 1 };
                    let b0 = if b < j { b } else { b - 1 };
                    assert(order@[a] == before[a0]);
                    assert(order@[b] == before[b0]);
                } else if a == j {
                    assert(order@[b] == before[b - 1]);
                } else {
                    assert(order@[a] == before[a]);
                }
            }
        }
        i = i + 1;
    }
    order
}

/// Reorders `users` as a stable sort by `keys`, the key of each user standing at
/// the same position.
pub fn sort_by_keys(users: &mut Vec<String>, keys: &Vec<String>)
    requires
        old(users)@.len() == keys@.len(),
    ensures
        stably_sorted_by(old(users)@, final(users)@, text_views(keys@)),
{
    let order = stable_order(keys);
    let mut sorted: Vec<String> = Vec::new();
    let mut k: usize = 0;
    while k < order.len()
        invariant
            is_stable_order(order@, text_views(keys@)),
            users@.len() == keys@.len(),
            k <= order@.len(),
            sorted@.len() == k,
            forall|t: int| 0 <= t < k ==> sorted@[t] == users@[order@[t] as int],
        decreases order@.len() - k,
    {
        assert(order@[k as int] < users@.len());
        sorted.push(users[order[k]].clone());
        k = k + 1;
    }
    let ghost before = users@;
    *users = sorted;
    assert(users@.len() == before.len());
}

/// Sorts user names by their lowercase forms, keeping names with equal
/// lowercase forms in the order they came.
pub fn sort_username(users: &mut Vec<String>)
    ensures
        stably_sorted_by(old(users)@, final(users)@, lowercase_keys(old(users)@)),
{
    let mut keys: Vec<String> = Vec::new();
    let mut i: usize = 0;
    while i < users.len()
        invariant
            i <= users@.len(),
            keys@.len() == i,
            forall|t: int| 0 <= t < i ==> #[trigger] keys@[t]@ == lower_of(users@[t]@),
        decreases users@.len() - i,
    {
        keys.push(lowercase(users[i].as_str()));
        i = i + 1;
    }
    assert(text_views(keys@) =~= lowercase_keys(users@));
    sort_by_keys(users, &keys);
}

} // verus!
