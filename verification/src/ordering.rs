//! Lexicographic order of strings and a stable sort by a string key.
//!
//! `String`'s order compares UTF-8 bytes; UTF-8 encodes code points so that
//! byte order and code-point order agree, so the order here, stated on
//! characters, is the order `String`'s `Ord` gives.
use vstd::prelude::*;
use crate::video_element::{Library, VideoElement};

verus! {

broadcast use vstd::seq_lib::group_seq_properties, vstd::multiset::group_multiset_axioms;

/// `a` comes strictly before `b`.
pub open spec fn str_less(a: Seq<char>, b: Seq<char>) -> bool
    decreases a.len(),
{
    if a.len() == 0 {
        b.len() > 0
    } else if b.len() == 0 {
        false
    } else if a[0] != b[0] {
        a[0] < b[0]
    } else {
        str_less(a.drop_first(), b.drop_first())
    }
}

pub open spec fn str_le(a: Seq<char>, b: Seq<char>) -> bool {
    str_less(a, b) || a == b
}

pub proof fn lemma_less_irreflexive(a: Seq<char>)
    ensures
        !str_less(a, a),
    decreases a.len(),
{
    if a.len() > 0 {
        lemma_less_irreflexive(a.drop_first());
    }
}

pub proof fn lemma_less_total(a: Seq<char>, b: Seq<char>)
    ensures
        a != b ==> str_less(a, b) || str_less(b, a),
        !(str_less(a, b) && str_less(b, a)),
    decreases a.len(),
{
    if a.len() > 0 && b.len() > 0 {
        lemma_less_total(a.drop_first(), b.drop_first());
        if a[0] == b[0] && a != b {
            assert(a.drop_first() != b.drop_first()) by {
                if a.drop_first() == b.drop_first() {
                    assert(a =~= seq![a[0]] + a.drop_first());
                    assert(b =~= seq![b[0]] + b.drop_first());
                }
            }
        }
    } else if a.len() == 0 && b.len() == 0 {
        assert(a =~= b);
    }
}

pub proof fn lemma_less_transitive(a: Seq<char>, b: Seq<char>, c: Seq<char>)
    requires
        str_less(a, b),
        str_less(b, c),
    ensures
        str_less(a, c),
    decreases a.len(),
{
    if a.len() > 0 && b.len() > 0 && c.len() > 0 {
        if a[0] == b[0] && b[0] == c[0] {
            lemma_less_transitive(a.drop_first(), b.drop_first(), c.drop_first());
        }
    }
}

pub proof fn lemma_le_transitive(a: Seq<char>, b: Seq<char>, c: Seq<char>)
    requires
        str_le(a, b),
        str_le(b, c),
    ensures
        str_le(a, c),
{
    if str_less(a, b) && str_less(b, c) {
        lemma_less_transitive(a, b, c);
    }
}

/// Whether `a` comes strictly before `b`.
pub fn less_than(a: &Vec<char>, b: &Vec<char>) -> (r: bool)
    ensures
        r == str_less(a@, b@),
{
    let mut i: usize = 0;
    assert(a@.subrange(0, a.len() as int) =~= a@);
    assert(b@.subrange(0, b.len() as int) =~= b@);
    while i < a.len() && i < b.len() && a[i] == b[i]
        invariant
            i <= a.len(),
            i <= b.len(),
            str_less(a@, b@) == str_less(a@.subrange(i as int, a.len() as int), b@.subrange(
                i as int,
                b.len() as int,
            )),
        decreases a.len() - i,
    {
        let ghost sa = a@.subrange(i as int, a.len() as int);
        let ghost sb = b@.subrange(i as int, b.len() as int);
        assert(sa.drop_first() =~= a@.subrange(i + 1, a.len() as int));
        assert(sb.drop_first() =~= b@.subrange(i + 1, b.len() as int));
        i = i + 1;
    }
    let ghost sa = a@.subrange(i as int, a.len() as int);
    let ghost sb = b@.subrange(i as int, b.len() as int);
    if i == a.len() {
        i < b.len()
    } else if i == b.len() {
        false
    } else {
        assert(sa[0] == a@[i as int] && sb[0] == b@[i as int]);
        a[i] < b[i]
    }
}

/// Values ordered by a string key.
pub trait SortKey: Sized {
    spec fn key(&self) -> Seq<char>;

    fn key_chars(&self) -> (r: Vec<char>)
        ensures
            r@ == self.key(),
    ;
}

impl SortKey for String {
    open spec fn key(&self) -> Seq<char> {
        self@
    }

    fn key_chars(&self) -> (r: Vec<char>) {
        crate::text::chars_of(self.as_str())
    }
}

impl SortKey for VideoElement {
    open spec fn key(&self) -> Seq<char> {
        self.filepath@
    }

    fn key_chars(&self) -> (r: Vec<char>) {
        crate::text::chars_of(self.filepath.as_str())
    }
}

impl SortKey for Library {
    open spec fn key(&self) -> Seq<char> {
        self.name@
    }

    fn key_chars(&self) -> (r: Vec<char>) {
        crate::text::chars_of(self.name.as_str())
    }
}

/// The keys of `s` never decrease.
pub open spec fn sorted_by_key<T: SortKey>(s: Seq<T>) -> bool {
    forall|i: int, j: int| 0 <= i < j < s.len() ==> str_le(#[trigger] s[i].key(), #[trigger] s[j].key())
}

/// `p` lists each index below `n` exactly once.
pub open spec fn is_index_permutation(p: Seq<int>, n: int) -> bool {
    &&& p.len() == n
    &&& forall|k: int| 0 <= k < p.len() ==> 0 <= #[trigger] p[k] < n
    &&& forall|k: int, l: int| 0 <= k < l < p.len() ==> #[trigger] p[k] != #[trigger] p[l]
}

/// `new` is `old` reordered by `p` (`new[k] == old[p[k]]`) so that keys
/// never decrease and elements with equal keys keep their order.
pub open spec fn stable_sort_by<T: SortKey>(old: Seq<T>, new: Seq<T>, p: Seq<int>) -> bool {
    &&& is_index_permutation(p, old.len() as int)
    &&& new.len() == old.len()
    &&& forall|k: int| 0 <= k < new.len() ==> #[trigger] new[k] == old[p[k]]
    &&& sorted_by_key(new)
    &&& forall|k: int, l: int|
        0 <= k < l < new.len() && new[k].key() == new[l].key() ==> #[trigger] p[k] < #[trigger] p[l]
}

/// Sorts by key, keeping elements with equal keys in their order
/// (`sort_by` / `sort_by_key` on the key's `String` order).
pub fn sort_by_key<T: SortKey>(v: &mut Vec<T>)
    ensures
        final(v)@.to_multiset() == old(v)@.to_multiset(),
        sorted_by_key(final(v)@),
        exists|p: Seq<int>| #[trigger] stable_sort_by(old(v)@, final(v)@, p),
{
    let mut res: Vec<T> = Vec::new();
    let ghost orig = v@;
    let ghost mut perm: Seq<int> = Seq::empty();
    while v.len() > 0
        invariant
            res@.to_multiset().add(v@.to_multiset()) == orig.to_multiset(),
            sorted_by_key(res@),
            v@ == orig.take(v@.len() as int),
            v@.len() + res@.len() == orig.len(),
            perm.len() == res@.len(),
            forall|k: int| 0 <= k < perm.len() ==> v@.len() <= #[trigger] perm[k] < orig.len(),
            forall|k: int| 0 <= k < perm.len() ==> #[trigger] res@[k] == orig[perm[k]],
            forall|k: int, l: int| 0 <= k < l < perm.len() ==> #[trigger] perm[k] != #[trigger] perm[l],
            forall|k: int, l: int|
                0 <= k < l < res@.len() && res@[k].key() == res@[l].key() ==> #[trigger] perm[k] < #[trigger] perm[l],
        decreases v.len(),
    {
        let ghost before = v@;
        let x = v.pop().unwrap();
        assert(before == v@.push(x));
        let ghost xi: int = v@.len() as int;
        assert(x == orig[xi]) by {
            assert(before[xi] == x);
        }
        assert(v@ == orig.take(v@.len() as int)) by {
            assert(v@ =~= before.take(xi));
        }
        let kx = x.key_chars();
        // first position whose key is not below x's key
        let mut j: usize = 0;
        while j < res.len()
            invariant
                j <= res.len(),
                forall|k: int| 0 <= k < j ==> str_less(#[trigger] res@[k].key(), x.key()),
                kx@ == x.key(),
            ensures
                j <= res.len(),
                forall|k: int| 0 <= k < j ==> str_less(#[trigger] res@[k].key(), x.key()),
                j < res.len() ==> !str_less(res@[j as int].key(), x.key()),
            decreases res.len() - j,
        {
            let kj = res[j].key_chars();
            if !less_than(&kj, &kx) {
                break;
            }
            j = j + 1;
        }
        proof {
            // keys from j on are not below x's key
            if j < res.len() {
                lemma_less_total(res@[j as int].key(), x.key());
            }
        }
        let ghost old_res = res@;
        let ghost old_perm = perm;
        res.insert(j, x);
        proof {
            perm = old_perm.insert(j as int, xi);
            old_res.insert_ensures(j as int, x);
            assert(res@ == old_res.insert(j as int, x));
            assert(res@.remove(j as int) =~= old_res);
            res@.to_multiset_ensures();
            assert(res@.to_multiset() =~= old_res.to_multiset().insert(x));
            assert(before.to_multiset() =~= v@.to_multiset().insert(x));
            assert forall|a: int, b: int| 0 <= a < b < res@.len() implies str_le(
                #[trigger] res@[a].key(),
                #[trigger] res@[b].key(),
            ) by {
                if b < j {
                } else if b == j {
                    assert(str_less(old_res[a].key(), x.key()));
                } else if a == j {
                    // x <= old_res[j] <= old_res[b-1]
                    if j < old_res.len() {
                        lemma_less_total(old_res[j as int].key(), x.key());
                        assert(str_le(x.key(), old_res[j as int].key()));
                        if b - 1 > j {
                            assert(str_le(old_res[j as int].key(), old_res[b - 1].key()));
                            lemma_le_transitive(x.key(), old_res[j as int].key(), old_res[b - 1].key());
                        }
                    }
                } else if a < j {
                    assert(str_le(old_res[a].key(), old_res[b - 1].key()));
                } else {
                    assert(str_le(old_res[a - 1].key(), old_res[b - 1].key()));
                }
            }
            assert forall|k: int| 0 <= k < perm.len() implies v@.len() <= #[trigger] perm[k] < orig.len() && res@[k]
                == orig[perm[k]] by {
                if k < j {
                    assert(perm[k] == old_perm[k] && res@[k] == old_res[k]);
                } else if k > j {
                    assert(perm[k] == old_perm[k - 1] && res@[k] == old_res[k - 1]);
                }
            }
            assert forall|k: int, l: int| 0 <= k < l < perm.len() implies #[trigger] perm[k] != #[trigger] perm[l] by {
                if k != j && l != j {
                    let k0 = if k < j { k } else { k - 1 };
                    let l0 = if l < j { l } else { l - 1 };
                    assert(perm[k] == old_perm[k0] && perm[l] == old_perm[l0]);
                } else if k == j {
                    assert(perm[l] == old_perm[l - 1]);
                } else {
                    let k0 = if k < j { k } else { k - 1 };
                    assert(perm[k] == old_perm[k0]);
                }
            }
            assert forall|k: int, l: int|
                0 <= k < l < res@.len() && res@[k].key() == res@[l].key() implies #[trigger] perm[k] < #[trigger] perm[l] by {
                if k != j && l != j {
                    let k0 = if k < j { k } else { k - 1 };
                    let l0 = if l < j { l } else { l - 1 };
                    assert(perm[k] == old_perm[k0] && perm[l] == old_perm[l0]);
                    assert(res@[k] == old_res[k0] && res@[l] == old_res[l0]);
                } else if l == j {
                    assert(res@[k] == old_res[k]);
                    assert(str_less(old_res[k].key(), x.key()));
                    lemma_less_irreflexive(x.key());
                } else {
                    assert(perm[l] == old_perm[l - 1]);
                }
            }
        }
    }
    proof {
        assert(v@.to_multiset() =~= vstd::multiset::Multiset::empty());
        assert(stable_sort_by(orig, res@, perm));
    }
    *v = res;
}

} // verus!
