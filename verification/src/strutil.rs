//! String comparison helpers: equality and lexicographic order on the
//! character sequences of `&str` values, together with the order lemmas the
//! sorting code needs.

use vstd::prelude::*;

verus! {

/// Lexicographic order on character sequences, comparing by code point.
pub open spec fn lex_le(a: Seq<char>, b: Seq<char>) -> bool
    decreases a.len(),
{
    if a.len() == 0 {
        true
    } else if b.len() == 0 {
        false
    } else if (a[0] as u32) < (b[0] as u32) {
        true
    } else if (b[0] as u32) < (a[0] as u32) {
        false
    } else {
        lex_le(a.drop_first(), b.drop_first())
    }
}

pub proof fn lemma_lex_le_total(a: Seq<char>, b: Seq<char>)
    ensures
        lex_le(a, b) || lex_le(b, a),
    decreases a.len(),
{
    if a.len() == 0 {
    } else if b.len() == 0 {
    } else if (a[0] as u32) == (b[0] as u32) {
        lemma_lex_le_total(a.drop_first(), b.drop_first());
    }
}

pub proof fn lemma_lex_le_trans(a: Seq<char>, b: Seq<char>, c: Seq<char>)
    requires
        lex_le(a, b),
        lex_le(b, c),
    ensures
        lex_le(a, c),
    decreases a.len(),
{
    if a.len() == 0 {
    } else if b.len() == 0 {
    } else if c.len() == 0 {
    } else {
        if (a[0] as u32) < (c[0] as u32) {
        } else {
            assert((a[0] as u32) == (b[0] as u32) && (b[0] as u32) == (c[0] as u32));
            lemma_lex_le_trans(a.drop_first(), b.drop_first(), c.drop_first());
        }
    }
}

/// Character-by-character equality test; equivalent to view equality.
pub fn str_eq(a: &str, b: &str) -> (r: bool)
    ensures
        r == (a@ == b@),
{
    let alen = a.unicode_len();
    let blen = b.unicode_len();
    if alen != blen {
        proof {
            assert(a@.len() != b@.len());
        }
        return false;
    }
    let mut i: usize = 0;
    while i < alen
        invariant
            alen as nat == a@.len(),
            blen as nat == b@.len(),
            alen == blen,
            i <= alen,
            forall|j: int| 0 <= j < i ==> a@[j] == b@[j],
        decreases alen - i,
    {
        let ca = a.get_char(i);
        let cb = b.get_char(i);
        if ca != cb {
            proof {
                assert(a@[i as int] != b@[i as int]);
            }
            return false;
        }
        i += 1;
    }
    proof {
        assert(a@ =~= b@);
    }
    true
}

/// Decides `lex_le` on the views of two string slices.
pub fn str_le(a: &str, b: &str) -> (r: bool)
    ensures
        r == lex_le(a@, b@),
{
    let alen = a.unicode_len();
    let blen = b.unicode_len();
    let mut i: usize = 0;
    proof {
        assert(a@.skip(0) =~= a@);
        assert(b@.skip(0) =~= b@);
    }
    while i < alen && i < blen
        invariant
            alen as nat == a@.len(),
            blen as nat == b@.len(),
            i <= alen,
            i <= blen,
            lex_le(a@, b@) == lex_le(a@.skip(i as int), b@.skip(i as int)),
        decreases alen - i,
    {
        let ca = a.get_char(i);
        let cb = b.get_char(i);
        proof {
            assert(a@.skip(i as int)[0] == a@[i as int]);
            assert(b@.skip(i as int)[0] == b@[i as int]);
        }
        if (ca as u32) < (cb as u32) {
            return true;
        }
        if (cb as u32) < (ca as u32) {
            return false;
        }
        proof {
            assert(a@.skip(i as int).drop_first() =~= a@.skip(i + 1));
            assert(b@.skip(i as int).drop_first() =~= b@.skip(i + 1));
        }
        i += 1;
    }
    if i == alen {
        proof {
            assert(a@.skip(i as int).len() == 0);
        }
        true
    } else {
        proof {
            assert(a@.skip(i as int).len() > 0);
            assert(b@.skip(i as int).len() == 0);
        }
        false
    }
}

/// All elements appear in weakly increasing lexicographic order.
pub open spec fn sorted_strs(s: Seq<String>) -> bool {
    forall|i: int, j: int| 0 <= i < j < s.len() ==> lex_le(s[i]@, s[j]@)
}

fn find_insert_pos(out: &Vec<String>, v: &str) -> (idx: usize)
    ensures
        idx <= out@.len(),
        forall|j: int| 0 <= j < idx ==> lex_le(out@[j]@, v@),
        idx < out@.len() ==> !lex_le(out@[idx as int]@, v@),
{
    let mut i: usize = 0;
    while i < out.len()
        invariant
            i <= out@.len(),
            forall|j: int| 0 <= j < i ==> lex_le(out@[j]@, v@),
        decreases out@.len() - i,
    {
        if !str_le(out[i].as_str(), v) {
            return i;
        }
        i += 1;
    }
    i
}

/// Inserts `v` into an already sorted vector, keeping it sorted.
pub fn sorted_insert(out: &mut Vec<String>, v: String)
    requires
        sorted_strs(old(out)@),
    ensures
        sorted_strs(final(out)@),
        final(out)@.to_multiset() == old(out)@.to_multiset().insert(v),
{
    broadcast use vstd::seq_lib::group_to_multiset_ensures;

    let ghost prev = out@;
    let idx = find_insert_pos(out, v.as_str());
    proof {
        if (idx as int) < prev.len() {
            lemma_lex_le_total(prev[idx as int]@, v@);
            assert(lex_le(v@, prev[idx as int]@));
        }
    }
    out.insert(idx, v);
    proof {
        assert(out@ =~= prev.insert(idx as int, v));
        prev.insert_ensures(idx as int, v);
        assert forall|i: int, j: int| 0 <= i < j < out@.len() implies lex_le(
            out@[i]@,
            out@[j]@,
        ) by {
            if i < idx && j == idx {
                assert(out@[i] == prev[i]);
            } else if i == idx && j > idx {
                assert(out@[j] == prev[j - 1]);
                if !lex_le(v@, prev[j - 1]@) {
                    if (idx as int) < prev.len() {
                        lemma_lex_le_trans(v@, prev[idx as int]@, prev[j - 1]@);
                    }
                }
            } else if i < idx && j > idx {
                assert(out@[i] == prev[i]);
                assert(out@[j] == prev[j - 1]);
            } else if i > idx && j > idx {
                assert(out@[i] == prev[i - 1]);
                assert(out@[j] == prev[j - 1]);
            }
        }
        let sub0 = prev.subrange(0, idx as int);
        let sub1 = prev.subrange(idx as int, prev.len() as int);
        vstd::seq_lib::lemma_multiset_commutative(sub0.push(v), sub1);
        vstd::seq_lib::lemma_multiset_commutative(sub0, sub1);
        assert(sub0 + sub1 =~= prev);
        assert(out@.to_multiset() =~= prev.to_multiset().insert(v));
    }
}

} // verus!
