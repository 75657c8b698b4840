//! The vault's in-memory credential list: a lexicographic order on
//! names, a sort, and a binary-search membership test.
use vstd::prelude::*;

use vstd::multiset::Multiset;

use crate::vault::Password;
use crate::vault::pw_view;
use crate::vault::views_of;

verus! {

/// Strict lexicographic "greater than" on character sequences: a proper
/// prefix is smaller, otherwise the first differing character decides.
pub open spec fn lex_gt(a: Seq<char>, b: Seq<char>) -> bool
    decreases a.len(),
{
    if a.len() == 0 {
        false
    } else if b.len() == 0 {
        true
    } else if a[0] > b[0] {
        true
    } else if a[0] < b[0] {
        false
    } else {
        lex_gt(a.skip(1), b.skip(1))
    }
}

pub proof fn lemma_lex_irrefl(a: Seq<char>)
    ensures
        !lex_gt(a, a),
    decreases a.len(),
{
    if a.len() != 0 {
        lemma_lex_irrefl(a.skip(1));
    }
}

pub proof fn lemma_lex_asym(a: Seq<char>, b: Seq<char>)
    requires
        lex_gt(a, b),
    ensures
        !lex_gt(b, a),
    decreases a.len(),
{
    if b.len() != 0 && a[0] == b[0] {
        lemma_lex_asym(a.skip(1), b.skip(1));
    }
}

/// Totality: two character sequences that compare neither way are equal.
pub proof fn lemma_lex_connex(a: Seq<char>, b: Seq<char>)
    requires
        !lex_gt(a, b),
        !lex_gt(b, a),
    ensures
        a == b,
    decreases a.len(),
{
    if a.len() == 0 {
        assert(b.len() == 0);
        assert(a =~= b);
    } else {
        assert(b.len() != 0);
        assert(a[0] == b[0]);
        lemma_lex_connex(a.skip(1), b.skip(1));
        assert(a.skip(1).len() == a.len() - 1);
        assert(b.skip(1).len() == b.len() - 1);
        assert(a.len() == b.len());
        assert forall|k: int| 0 <= k < a.len() implies a[k] == b[k] by {
            if k > 0 {
                assert(a[k] == a.skip(1)[k - 1]);
                assert(b[k] == b.skip(1)[k - 1]);
            }
        }
        assert(a =~= b);
    }
}

pub proof fn lemma_lex_le_trans(a: Seq<char>, b: Seq<char>, c: Seq<char>)
    requires
        !lex_gt(a, b),
        !lex_gt(b, c),
    ensures
        !lex_gt(a, c),
    decreases a.len(),
{
    if a.len() != 0 && c.len() != 0 {
        assert(b.len() != 0);
        if a[0] == b[0] && b[0] == c[0] {
            lemma_lex_le_trans(a.skip(1), b.skip(1), c.skip(1));
        }
    }
}

/// The list is sorted ascending by name.
pub open spec fn sorted_names(s: Seq<Password>) -> bool {
    forall|i: int, j: int|
        0 <= i < j < s.len() ==> !lex_gt(#[trigger] s[i].name@, #[trigger] s[j].name@)
}

/// Some entry of the list carries this name.
pub open spec fn name_listed(s: Seq<Password>, name: Seq<char>) -> bool {
    exists|i: int| 0 <= i < s.len() && s[i].name@ == name
}

/// Compare two names: does `lhs` sort strictly after `rhs`?
pub fn alphabetical(lhs: &str, rhs: &str) -> (r: bool)
    ensures
        r == lex_gt(lhs@, rhs@),
{
    let llen = lhs.unicode_len();
    let rlen = rhs.unicode_len();
    let mut i: usize = 0;
    proof {
        assert(lhs@.skip(0) =~= lhs@);
        assert(rhs@.skip(0) =~= rhs@);
    }
    loop
        invariant
            i <= llen,
            i <= rlen,
            llen == lhs@.len(),
            rlen == rhs@.len(),
            lex_gt(lhs@, rhs@) == lex_gt(lhs@.skip(i as int), rhs@.skip(i as int)),
        decreases llen - i,
    {
        if i == llen {
            return false;
        }
        if i == rlen {
            return true;
        }
        let l = lhs.get_char(i);
        let r = rhs.get_char(i);
        if (l as u32) > (r as u32) {
            return true;
        } else if (l as u32) < (r as u32) {
            return false;
        } else {
            proof {
                assert(l == r);
                assert(lhs@.skip(i as int).skip(1) =~= lhs@.skip(i as int + 1));
                assert(rhs@.skip(i as int).skip(1) =~= rhs@.skip(i as int + 1));
            }
            i = i + 1;
        }
    }
}

/// Sort the list ascending by name; the entries are kept, only their
/// order changes.
pub fn sort(list: &mut Vec<Password>)
    ensures
        sorted_names(final(list)@),
        views_of(final(list)@).to_multiset() == views_of(old(list)@).to_multiset(),
{
    broadcast use vstd::seq_lib::group_to_multiset_ensures;

    let ghost orig = list@;
    let mut out: Vec<Password> = Vec::new();
    while list.len() > 0
        invariant
            sorted_names(out@),
            views_of(out@).to_multiset().add(views_of(list@).to_multiset()) =~= views_of(
                orig,
            ).to_multiset(),
            forall|a: int, b: int|
                0 <= a < out@.len() && 0 <= b < list@.len() ==> !lex_gt(
                    #[trigger] out@[a].name@,
                    #[trigger] list@[b].name@,
                ),
        decreases list@.len(),
    {
        let mut m: usize = 0;
        let mut j: usize = 1;
        proof {
            lemma_lex_irrefl(list@[0].name@);
        }
        while j < list.len()
            invariant
                m < j <= list@.len(),
                list@.len() > 0,
                forall|k: int|
                    0 <= k < j ==> !lex_gt(list@[m as int].name@, #[trigger] list@[k].name@),
            decreases list@.len() - j,
        {
            if alphabetical(list[m].name.as_str(), list[j].name.as_str()) {
                proof {
                    lemma_lex_asym(list@[m as int].name@, list@[j as int].name@);
                    lemma_lex_irrefl(list@[j as int].name@);
                    assert forall|k: int| 0 <= k < j implies !lex_gt(
                        list@[j as int].name@,
                        #[trigger] list@[k].name@,
                    ) by {
                        lemma_lex_le_trans(
                            list@[j as int].name@,
                            list@[m as int].name@,
                            list@[k].name@,
                        );
                    }
                }
                m = j;
            } else {
                proof {
                    lemma_lex_irrefl(list@[j as int].name@);
                }
            }
            j = j + 1;
        }
        let ghost l0 = list@;
        let ghost o0 = out@;
        let x = list.remove(m);
        out.push(x);
        proof {
            views_of(l0).to_multiset_ensures();
            views_of(o0).to_multiset_ensures();
            assert(views_of(list@) =~= views_of(l0).remove(m as int));
            assert(views_of(out@) =~= views_of(o0).push(pw_view(x)));
            assert(views_of(l0)[m as int] == pw_view(x));
            assert(views_of(l0).remove(m as int).to_multiset() =~= views_of(
                l0,
            ).to_multiset().remove(pw_view(x)));
            assert(views_of(o0).push(pw_view(x)).to_multiset() =~= views_of(
                o0,
            ).to_multiset().insert(pw_view(x)));
            assert(views_of(l0).contains(pw_view(x)));
            assert(views_of(out@).to_multiset().add(views_of(list@).to_multiset()) =~= views_of(
                orig,
            ).to_multiset());
        }
    }
    proof {
        assert(views_of(list@) =~= Seq::<(Seq<char>, Seq<char>, Seq<u8>)>::empty());
        assert(views_of(list@).to_multiset() =~= Multiset::<
            (Seq<char>, Seq<char>, Seq<u8>),
        >::empty());
        assert(views_of(out@).to_multiset() =~= views_of(orig).to_multiset());
    }
    core::mem::swap(list, &mut out);
}

/// Binary search: is a credential of this name in the sorted list?
pub fn contains(name: &str, list: &[Password]) -> (r: bool)
    requires
        sorted_names(list@),
    ensures
        r == name_listed(list@, name@),
{
    let mut lo: usize = 0;
    let mut hi: usize = list.len();
    while lo < hi
        invariant
            lo <= hi <= list@.len(),
            sorted_names(list@),
            forall|k: int|
                0 <= k < list@.len() && !(lo <= k < hi) ==> #[trigger] list@[k].name@ != name@,
        decreases hi - lo,
    {
        let mid = lo + (hi - lo) / 2;
        let gt_name_el = alphabetical(name, list[mid].name.as_str());
        let gt_el_name = alphabetical(list[mid].name.as_str(), name);
        if !gt_name_el && !gt_el_name {
            proof {
                lemma_lex_connex(name@, list@[mid as int].name@);
            }
            return true;
        } else if gt_name_el {
            proof {
                assert forall|k: int| lo <= k <= mid implies #[trigger] list@[k].name@ != name@ by {
                    lemma_lex_asym(name@, list@[mid as int].name@);
                    if list@[k].name@ == name@ {
                        if k < mid {
                            assert(!lex_gt(list@[k].name@, list@[mid as int].name@));
                        }
                    }
                }
            }
            lo = mid + 1;
        } else {
            proof {
                assert forall|k: int| mid <= k < hi implies #[trigger] list@[k].name@ != name@ by {
                    lemma_lex_asym(list@[mid as int].name@, name@);
                    if list@[k].name@ == name@ {
                        if mid < k {
                            assert(!lex_gt(list@[mid as int].name@, list@[k].name@));
                        }
                    }
                }
            }
            hi = mid;
        }
    }
    false
}

} // verus!
