use vstd::prelude::*;

use crate::component::ComponentId;

verus! {

/// Component ids in strictly increasing order.
pub open spec fn strictly_sorted(s: Seq<ComponentId>) -> bool {
    forall|i: int, j: int| 0 <= i < j < s.len() ==> (#[trigger] s[i]).0 < (#[trigger] s[j]).0
}

/// The raw indices of a sequence of component ids.
pub open spec fn raw_ids(s: Seq<ComponentId>) -> Seq<usize> {
    s.map_values(|c: ComponentId| c.0)
}

/// Two strictly sorted sequences with the same elements are equal.
pub proof fn lemma_sorted_set_unique(a: Seq<ComponentId>, b: Seq<ComponentId>)
    requires
        strictly_sorted(a),
        strictly_sorted(b),
        a.to_set() == b.to_set(),
    ensures
        a == b,
    decreases a.len() + b.len(),
{
    if a.len() == 0 {
        if b.len() > 0 {
            assert(b.to_set().contains(b[0]));
            assert(!a.to_set().contains(b[0]));
        }
        assert(a =~= b);
    } else if b.len() == 0 {
        assert(a.to_set().contains(a[0]));
        assert(!b.to_set().contains(a[0]));
    } else {
        assert(a.to_set().contains(a[0]));
        assert(b.to_set().contains(b[0]));
        let ka = choose|k: int| 0 <= k < b.len() && b[k] == a[0];
        let kb = choose|k: int| 0 <= k < a.len() && a[k] == b[0];
        if ka > 0 {
            assert(b[0].0 < b[ka].0);
        }
        if kb > 0 {
            assert(a[0].0 < a[kb].0);
        }
        assert(a[0] == b[0]);
        let ra = a.drop_first();
        let rb = b.drop_first();
        assert forall|x: ComponentId| ra.to_set().contains(x) implies rb.to_set().contains(x) by {
            let k = choose|k: int| 0 <= k < ra.len() && ra[k] == x;
            assert(a[k + 1] == x);
            assert(a.to_set().contains(x));
            let m = choose|m: int| 0 <= m < b.len() && b[m] == x;
            assert(a[0].0 < a[k + 1].0);
            assert(m != 0);
            assert(rb[m - 1] == x);
        }
        assert forall|x: ComponentId| rb.to_set().contains(x) implies ra.to_set().contains(x) by {
            let k = choose|k: int| 0 <= k < rb.len() && rb[k] == x;
            assert(b[k + 1] == x);
            assert(b.to_set().contains(x));
            let m = choose|m: int| 0 <= m < a.len() && a[m] == x;
            assert(b[0].0 < b[k + 1].0);
            assert(m != 0);
            assert(ra[m - 1] == x);
        }
        assert(ra.to_set() =~= rb.to_set());
        lemma_sorted_set_unique(ra, rb);
        assert(a =~= b) by {
            assert forall|i: int| 0 <= i < a.len() implies a[i] == b[i] by {
                if i > 0 {
                    assert(a[i] == ra[i - 1]);
                    assert(b[i] == rb[i - 1]);
                }
            }
        }
    }
}

/// Equal raw indices mean equal id sequences.
pub proof fn lemma_raw_ids_injective(a: Seq<ComponentId>, b: Seq<ComponentId>)
    requires
        raw_ids(a) == raw_ids(b),
    ensures
        a == b,
{
    assert(a.len() == raw_ids(a).len());
    assert forall|i: int| 0 <= i < a.len() implies a[i] == b[i] by {
        assert(raw_ids(a)[i] == a[i].0);
        assert(raw_ids(b)[i] == b[i].0);
    }
    assert(a =~= b);
}

/// The ids of `ids` sorted in strictly increasing order, each once.
pub fn sorted_unique(ids: &[ComponentId]) -> (r: Vec<ComponentId>)
    ensures
        strictly_sorted(r@),
        r@.to_set() == ids@.to_set(),
        r@.len() <= ids@.len(),
{
    let mut out: Vec<ComponentId> = Vec::new();
    let mut i: usize = 0;
    while i < ids.len()
        invariant
            i <= ids@.len(),
            strictly_sorted(out@),
            out@.to_set() == ids@.subrange(0, i as int).to_set(),
            out@.len() <= i,
        decreases ids@.len() - i,
    {
        let c = ids[i];
        out = insert_sorted(&out, c);
        i = i + 1;
        proof {
            assert(ids@.subrange(0, i as int) =~= ids@.subrange(0, i - 1).push(c));
            assert(ids@.subrange(0, i as int).to_set() =~= ids@.subrange(0, i - 1).to_set().insert(c)) by {
                let pre = ids@.subrange(0, i - 1);
                let post = ids@.subrange(0, i as int);
                assert forall|x: ComponentId| post.to_set().contains(x) implies pre.to_set().insert(c).contains(x) by {
                    let k = choose|k: int| 0 <= k < post.len() && post[k] == x;
                    if k < pre.len() {
                        assert(pre[k] == x);
                    }
                }
                assert forall|x: ComponentId| pre.to_set().insert(c).contains(x) implies post.to_set().contains(x) by {
                    if x == c {
                        assert(post[post.len() - 1] == c);
                    } else {
                        let k = choose|k: int| 0 <= k < pre.len() && pre[k] == x;
                        assert(post[k] == x);
                    }
                }
            }
        }
    }
    proof {
        assert(ids@.subrange(0, ids@.len() as int) =~= ids@);
    }
    out
}

/// `sorted` with `c` added in its place, unless it is already there.
pub fn insert_sorted(sorted: &Vec<ComponentId>, c: ComponentId) -> (r: Vec<ComponentId>)
    requires
        strictly_sorted(sorted@),
    ensures
        strictly_sorted(r@),
        r@.to_set() == sorted@.to_set().insert(c),
        r@.len() <= sorted@.len() + 1,
{
    let mut out: Vec<ComponentId> = Vec::new();
    let mut i: usize = 0;
    while i < sorted.len() && sorted[i].0 < c.0
        invariant
            i <= sorted@.len(),
            out@ == sorted@.subrange(0, i as int),
            forall|k: int| 0 <= k < i ==> (#[trigger] sorted@[k]).0 < c.0,
        decreases sorted@.len() - i,
    {
        out.push(sorted[i]);
        i = i + 1;
        proof {
            assert(out@ =~= sorted@.subrange(0, i as int));
        }
    }
    let skip = i < sorted.len() && sorted[i].0 == c.0;
    out.push(c);
    let mut j: usize = if skip { i + 1 } else { i };
    let ghost start = j;
    let ghost head = out@;
    while j < sorted.len()
        invariant
            start <= j <= sorted@.len(),
            out@ == head + sorted@.subrange(start as int, j as int),
        decreases sorted@.len() - j,
    {
        out.push(sorted[j]);
        j = j + 1;
        proof {
            assert(out@ =~= head + sorted@.subrange(start as int, j as int));
        }
    }
    proof {
        let s = sorted@;
        let o = out@;
        assert(head =~= s.subrange(0, i as int).push(c));
        assert(o.len() == i + 1 + (s.len() - start));
        assert forall|k: int| 0 <= k < o.len() implies #[trigger] o[k] == if k < i {
            s[k]
        } else if k == i {
            c
        } else {
            s[k - i - 1 + start]
        } by {
            if k < i + 1 {
                assert(o[k] == head[k]);
            } else {
                assert(o[k] == s.subrange(start as int, s.len() as int)[k - i - 1]);
            }
        }
        assert(start > i ==> s[i as int].0 == c.0);
        assert(i < s.len() && start == i ==> c.0 < s[i as int].0);
        assert forall|a: int, b: int| 0 <= a < b < o.len() implies (#[trigger] o[a]).0 < (#[trigger] o[b]).0 by {
            if a < i && b < i {
            } else if a < i && b == i {
            } else if a < i {
                assert(s[a].0 < s[b - i - 1 + start].0 || a == b - i - 1 + start);
            } else if a == i {
                if start == i {
                    assert(s[i as int].0 <= s[b - i - 1 + start].0);
                } else {
                    assert(s[i as int].0 < s[b - i - 1 + start].0);
                }
            } else {
            }
        }
        assert forall|x: ComponentId| o.to_set().contains(x) implies s.to_set().insert(c).contains(x) by {
            let k = choose|k: int| 0 <= k < o.len() && o[k] == x;
            if k < i {
                assert(s[k] == x);
            } else if k > i {
                assert(s[k - i - 1 + start] == x);
            }
        }
        assert forall|x: ComponentId| s.to_set().insert(c).contains(x) implies o.to_set().contains(x) by {
            if x == c {
                assert(o[i as int] == c);
            } else {
                let k = choose|k: int| 0 <= k < s.len() && s[k] == x;
                if k < i {
                    assert(o[k] == x);
                } else if k >= start {
                    assert(o[k + i + 1 - start] == x);
                } else {
                    assert(k == i);
                    assert(s[k].0 == c.0);
                    assert(x == c);
                }
            }
        }
        assert(o.to_set() =~= s.to_set().insert(c));
    }
    out
}

/// The raw indices of `ids`, in order.
pub fn to_raw(ids: &[ComponentId]) -> (r: Vec<usize>)
    ensures
        r@ == raw_ids(ids@),
{
    let mut out: Vec<usize> = Vec::new();
    let mut i: usize = 0;
    while i < ids.len()
        invariant
            i <= ids@.len(),
            out@ == raw_ids(ids@.subrange(0, i as int)),
        decreases ids@.len() - i,
    {
        out.push(ids[i].0);
        i = i + 1;
        proof {
            assert(out@ =~= raw_ids(ids@.subrange(0, i as int)));
        }
    }
    proof {
        assert(ids@.subrange(0, ids@.len() as int) =~= ids@);
    }
    out
}

/// A lookup from a pair of sorted raw-id lists to a handle, kept in a `hashbrown::HashMap`.
#[verifier::external_body]
pub struct SignatureIndex {
    map: hashbrown::HashMap<(Vec<usize>, Vec<usize>), u32>,
}

/// The pairs of id lists held by an index, and their handles.
pub uninterp spec fn index_contents(m: &SignatureIndex) -> Map<(Seq<usize>, Seq<usize>), u32>;

/// Relies on `hashbrown::HashMap::new`: a new map holds nothing.
#[verifier::external_body]
pub fn signature_index_new() -> (r: SignatureIndex)
    ensures
        forall|k: (Seq<usize>, Seq<usize>)| !index_contents(&r).contains_key(k),
{
    SignatureIndex { map: hashbrown::HashMap::new() }
}

/// Relies on `hashbrown::HashMap::get`: the handle stored under the key, if any; keys compare
/// as the lists of their elements.
#[verifier::external_body]
pub fn signature_index_get(m: &SignatureIndex, a: &Vec<usize>, b: &Vec<usize>) -> (r: Option<u32>)
    ensures
        r == (if index_contents(m).contains_key((a@, b@)) {
            Some(index_contents(m)[(a@, b@)])
        } else {
            None
        }),
{
    m.map.get(&(a.clone(), b.clone())).copied()
}

/// Relies on `hashbrown::HashMap::insert`: the key afterwards maps to `v`, other keys keep theirs.
#[verifier::external_body]
pub fn signature_index_insert(m: &mut SignatureIndex, a: Vec<usize>, b: Vec<usize>, v: u32)
    ensures
        index_contents(final(m)) == index_contents(old(m)).insert((a@, b@), v),
{
    m.map.insert((a, b), v);
}

} // verus!
