use std::path::PathBuf;
use vstd::prelude::*;

verus! {

/// The path type of the standard library, carried through as it is.
#[verifier::external_type_specification]
#[verifier::external_body]
pub struct ExPathBuf(PathBuf);

/// An item that was downloaded and unpacked.
pub struct DownloadedItem<T> {
    /// What the item was requested with.
    pub metadata: T,
    /// The path of the file that was taken out of the archive.
    pub extracted_path: PathBuf,
}

/// Whether the item at place `a` comes before the item at place `b` where items
/// are put in the order of their mesh codes, items of one code in the order in
/// which they stand.
pub open spec fn comes_before(codes: Seq<u64>, a: int, b: int) -> bool {
    codes[a] < codes[b] || (codes[a] == codes[b] && a < b)
}

/// Whether `order` lists the place `place`.
pub open spec fn lists_place(order: Seq<usize>, place: int) -> bool {
    exists|k: int| 0 <= k < order.len() && (#[trigger] order[k]) as int == place
}

/// Whether `order` lists the places `0..count`, each once, so that the codes at
/// these places ascend, and places of one code keep their order.
pub open spec fn is_mesh_order(codes: Seq<u64>, order: Seq<usize>, count: int) -> bool {
    &&& order.len() == count
    &&& forall|k: int| 0 <= k < order.len() ==> 0 <= #[trigger] order[k] < count
    &&& forall|i: int| 0 <= i < count ==> #[trigger] lists_place(order, i)
    &&& forall|a: int, b: int|
        0 <= a < b < order.len() ==> comes_before(
            codes,
            #[trigger] order[a] as int,
            #[trigger] order[b] as int,
        )
}

/// The order in which downloaded items are worked through: the places of `codes`
/// by ascending mesh code.
pub fn order_by_mesh(codes: &[u64]) -> (order: Vec<usize>)
    ensures
        is_mesh_order(codes@, order@, codes@.len() as int),
{
    let mut order: Vec<usize> = Vec::new();
    let mut i: usize = 0;
    while i < codes.len()
        invariant
            i <= codes.len(),
            is_mesh_order(codes@, order@, i as int),
        decreases codes.len() - i,
    {
        let code = codes[i];
        let mut p: usize = order.len();
        while p > 0 && codes[order[p - 1]] > code
            invariant
                p <= order.len() == i,
                i < codes.len(),
                code == codes@[i as int],
                is_mesh_order(codes@, order@, i as int),
                forall|k: int| p <= k < order.len() ==> codes@[#[trigger] order@[k] as int] > code,
            decreases p,
        {
            p = p - 1;
        }
        let ghost before = order@;
        order.insert(p, i);
        proof {
            let after = order@;
            assert forall|k: int| 0 <= k < after.len() implies 0 <= #[trigger] after[k] < i + 1 by {
                if k < p {
                    assert(after[k] == before[k]);
                } else if k > p {
                    assert(after[k] == before[k - 1]);
                }
            }
            assert forall|n: int| 0 <= n < i + 1 implies #[trigger] lists_place(after, n) by {
                if n < i {
                    assert(lists_place(before, n));
                    let w = choose|w: int| 0 <= w < before.len() && before[w] as int == n;
                    if w < p {
                        assert(after[w] == before[w]);
                    } else {
                        assert(after[w + 1] == before[w]);
                    }
                } else {
                    assert(after[p as int] == i);
                }
            }
            assert forall|a: int, b: int| 0 <= a < b < after.len() implies comes_before(
                codes@,
                #[trigger] after[a] as int,
                #[trigger] after[b] as int,
            ) by {
                let ba = if a < p {
                    a
                } else {
                    a - 1
                };
                let bb = if b < p {
                    b
                } else {
                    b - 1
                };
                if a != p {
                    assert(after[a] == before[ba]);
                }
                if b != p {
                    assert(after[b] == before[bb]);
                }
                if a != p && b != p {
                    assert(comes_before(codes@, before[ba] as int, before[bb] as int));
                } else if a == p {
                    assert(codes@[before[bb] as int] > code);
                } else {
                    // Every place listed is below `i`, and those before `p` hold no greater code.
                    assert(before[ba] < i);
                    if p > 0 {
                        if ba < p - 1 {
                            assert(comes_before(codes@, before[ba] as int, before[p - 1] as int));
                        }
                    }
                }
            }
        }
        i = i + 1;
    }
    order
}

/// Whether every code of `s` is below the one after it.
pub open spec fn strictly_ascending(s: Seq<u64>) -> bool {
    forall|i: int, j: int| 0 <= i < j < s.len() ==> s[i] < s[j]
}

/// Whether no code stands twice in `codes`.
pub open spec fn distinct_codes(codes: Seq<u64>) -> bool {
    forall|i: int, j: int| 0 <= i < j < codes.len() ==> codes[i] != codes[j]
}

/// The codes of `codes` in the order `order`.
pub open spec fn in_order(codes: Seq<u64>, order: Seq<usize>) -> Seq<u64> {
    Seq::new(order.len(), |k: int| codes[order[k] as int])
}

/// Two ascending sequences of the same codes are the same sequence.
pub proof fn lemma_ascending_same_codes(a: Seq<u64>, b: Seq<u64>)
    requires
        strictly_ascending(a),
        strictly_ascending(b),
        forall|i: int| 0 <= i < a.len() ==> b.contains(#[trigger] a[i]),
        forall|j: int| 0 <= j < b.len() ==> a.contains(#[trigger] b[j]),
    ensures
        a == b,
    decreases a.len(),
{
    if a.len() == 0 {
        if b.len() > 0 {
            assert(a.contains(b[0]));
        }
        assert(a =~= b);
    } else {
        let n = a.len() - 1;
        assert(b.contains(a[n]));
        let pb = choose|pb: int| 0 <= pb < b.len() && b[pb] == a[n];
        let m = b.len() - 1;
        assert(a.contains(b[m]));
        let pa = choose|pa: int| 0 <= pa < a.len() && a[pa] == b[m];
        if pa < n {
            assert(a[pa] < a[n]);
        }
        if pb < m {
            assert(b[pb] < b[m]);
        }
        assert(a[n] == b[m]);
        let fa = a.drop_last();
        let fb = b.drop_last();
        assert(strictly_ascending(fa)) by {
            assert forall|i: int, j: int| 0 <= i < j < fa.len() implies fa[i] < fa[j] by {
                assert(fa[i] == a[i] && fa[j] == a[j]);
            }
        }
        assert(strictly_ascending(fb)) by {
            assert forall|i: int, j: int| 0 <= i < j < fb.len() implies fb[i] < fb[j] by {
                assert(fb[i] == b[i] && fb[j] == b[j]);
            }
        }
        assert forall|i: int| 0 <= i < fa.len() implies fb.contains(#[trigger] fa[i]) by {
            assert(fa[i] == a[i]);
            assert(b.contains(a[i]));
            let w = choose|w: int| 0 <= w < b.len() && b[w] == a[i];
            assert(a[i] < a[n]);
            assert(w < m);
            assert(fb[w] == a[i]);
        }
        assert forall|j: int| 0 <= j < fb.len() implies fa.contains(#[trigger] fb[j]) by {
            assert(fb[j] == b[j]);
            assert(a.contains(b[j]));
            let w = choose|w: int| 0 <= w < a.len() && a[w] == b[j];
            assert(b[j] < b[m]);
            assert(w < n);
            assert(fa[w] == b[j]);
        }
        lemma_ascending_same_codes(fa, fb);
        assert(a =~= fa.push(a[n]));
        assert(b =~= fb.push(b[m]));
    }
}

/// The order in which files are worked through does not depend on the order in
/// which they arrived: two lists that hold the same mesh codes, each once, are
/// put into the same order of codes.
pub proof fn lemma_mesh_order_is_determined(
    codes: Seq<u64>,
    order: Seq<usize>,
    other_codes: Seq<u64>,
    other_order: Seq<usize>,
)
    requires
        is_mesh_order(codes, order, codes.len() as int),
        is_mesh_order(other_codes, other_order, other_codes.len() as int),
        distinct_codes(codes),
        distinct_codes(other_codes),
        forall|i: int| 0 <= i < codes.len() ==> other_codes.contains(#[trigger] codes[i]),
        forall|j: int| 0 <= j < other_codes.len() ==> codes.contains(#[trigger] other_codes[j]),
    ensures
        in_order(codes, order) == in_order(other_codes, other_order),
{
    let a = in_order(codes, order);
    let b = in_order(other_codes, other_order);
    lemma_in_order_ascends(codes, order);
    lemma_in_order_ascends(other_codes, other_order);
    assert forall|i: int| 0 <= i < a.len() implies b.contains(#[trigger] a[i]) by {
        let code = codes[order[i] as int];
        assert(other_codes.contains(code));
        let w = choose|w: int| 0 <= w < other_codes.len() && other_codes[w] == code;
        assert(lists_place(other_order, w));
        let k = choose|k: int| 0 <= k < other_order.len() && other_order[k] as int == w;
        assert(b[k] == code);
    }
    assert forall|j: int| 0 <= j < b.len() implies a.contains(#[trigger] b[j]) by {
        let code = other_codes[other_order[j] as int];
        assert(codes.contains(code));
        let w = choose|w: int| 0 <= w < codes.len() && codes[w] == code;
        assert(lists_place(order, w));
        let k = choose|k: int| 0 <= k < order.len() && order[k] as int == w;
        assert(a[k] == code);
    }
    lemma_ascending_same_codes(a, b);
}

/// Codes that stand once each ascend strictly in their mesh order.
pub proof fn lemma_in_order_ascends(codes: Seq<u64>, order: Seq<usize>)
    requires
        is_mesh_order(codes, order, codes.len() as int),
        distinct_codes(codes),
    ensures
        strictly_ascending(in_order(codes, order)),
{
    let a = in_order(codes, order);
    assert forall|i: int, j: int| 0 <= i < j < a.len() implies a[i] < a[j] by {
        let x = order[i] as int;
        let y = order[j] as int;
        assert(comes_before(codes, x, y));
        if codes[x] == codes[y] {
            assert(x < y);
        }
    }
}

} // verus!
