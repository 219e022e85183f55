//! What indexing and comparing promise: an index answers for each id with
//! the first transaction of that id; two indexes compare without a
//! difference exactly when they are equal.

use vstd::prelude::*;

use crate::compare::{
    answers_as, differences, first_pass, first_side_difference, index_insert, index_of, insert_sorted,
    lemma_lookup_sorted, lookup, second_pass, second_side_difference, sorted_by_id, Difference,
};
use crate::transaction::{Transaction, TransactionModel};

verus! {

/// A transaction that `lookup` finds has the id looked for and stands in the sequence.
pub(crate) proof fn lemma_lookup_found(s: Seq<TransactionModel>, id: u64) -> (k: int)
    requires
        lookup(s, id) is Some,
    ensures
        0 <= k < s.len(),
        s[k] == lookup(s, id)->0,
        s[k].id == id,
    decreases s.len(),
{
    if s[0].id == id {
        0
    } else {
        let k = lemma_lookup_found(s.drop_first(), id);
        assert(s.drop_first()[k] == s[k + 1]);
        k + 1
    }
}

/// `lookup` in a sequence with one more transaction at its end.
proof fn lemma_lookup_push(s: Seq<TransactionModel>, t: TransactionModel, id: u64)
    ensures
        lookup(s.push(t), id) == (if lookup(s, id) is Some {
            lookup(s, id)
        } else if t.id == id {
            Some(t)
        } else {
            None
        }),
    decreases s.len(),
{
    if s.len() == 0 {
        assert(s.push(t).drop_first() =~= Seq::<TransactionModel>::empty());
    } else {
        assert(s.push(t).drop_first() =~= s.drop_first().push(t));
        lemma_lookup_push(s.drop_first(), t, id);
    }
}

/// `lookup` after `t` was put into a sequence that lacks its id.
pub(crate) proof fn lemma_lookup_insert_sorted(s: Seq<TransactionModel>, t: TransactionModel, id: u64)
    requires
        lookup(s, t.id) is None,
    ensures
        lookup(insert_sorted(s, t), id) == (if t.id == id {
            Some(t)
        } else {
            lookup(s, id)
        }),
    decreases s.len(),
{
    if s.len() == 0 {
        assert(seq![t].drop_first() =~= s);
        assert(seq![t][0] == t);
        assert(insert_sorted(s, t) == seq![t]);
        assert(lookup(s, id) is None);
        assert(lookup(seq![t], id) == (if t.id == id { Some(t) } else { lookup(s, id) }));
    } else if t.id < s[0].id {
        let x = seq![t] + s;
        assert(x.drop_first() =~= s);
        assert(x[0] == t);
        assert(insert_sorted(s, t) == x);
        assert(lookup(x, id) == (if t.id == id { Some(t) } else { lookup(s, id) }));
    } else {
        let r = insert_sorted(s.drop_first(), t);
        let x = seq![s[0]] + r;
        assert(x.drop_first() =~= r);
        assert(x[0] == s[0]);
        assert(insert_sorted(s, t) == x);
        assert(s[0].id != t.id);
        assert(lookup(s.drop_first(), t.id) is None);
        lemma_lookup_insert_sorted(s.drop_first(), t, id);
        assert(lookup(x, id) == (if t.id == id { Some(t) } else { lookup(s, id) }));
    }
}

/// Putting `t` into a sorted sequence that lacks its id keeps it sorted.
pub(crate) proof fn lemma_insert_sorted_keeps_order(s: Seq<TransactionModel>, t: TransactionModel)
    requires
        sorted_by_id(s),
        lookup(s, t.id) is None,
    ensures
        sorted_by_id(insert_sorted(s, t)),
        forall|i: int|
            0 <= i < insert_sorted(s, t).len() ==> (#[trigger] insert_sorted(s, t)[i] == t || exists|j: int|
                0 <= j < s.len() && s[j] == insert_sorted(s, t)[i]),
        insert_sorted(s, t).len() == s.len() + 1,
    decreases s.len(),
{
    if s.len() == 0 {
    } else if t.id < s[0].id {
        let x = seq![t] + s;
        assert forall|i: int, j: int| 0 <= i < j < x.len() implies x[i].id < x[j].id by {
            assert(x[j] == s[j - 1]);
            if i > 0 {
                assert(x[i] == s[i - 1]);
            } else {
                assert(s[0].id <= s[j - 1].id);
            }
        }
        assert forall|i: int| 0 <= i < x.len() implies (#[trigger] x[i] == t || exists|j: int|
            0 <= j < s.len() && s[j] == x[i]) by {
            if i > 0 {
                assert(s[i - 1] == x[i]);
            }
        }
    } else {
        let rest = s.drop_first();
        assert(sorted_by_id(rest)) by {
            assert forall|i: int, j: int| 0 <= i < j < rest.len() implies rest[i].id < rest[j].id by {
                assert(rest[i] == s[i + 1] && rest[j] == s[j + 1]);
            }
        }
        lemma_insert_sorted_keeps_order(rest, t);
        let r = insert_sorted(rest, t);
        let x = seq![s[0]] + r;
        assert forall|i: int| 0 <= i < r.len() implies s[0].id < #[trigger] r[i].id by {
            if r[i] != t {
                let j = choose|j: int| 0 <= j < rest.len() && rest[j] == r[i];
                assert(rest[j] == s[j + 1]);
            }
        }
        assert forall|i: int, j: int| 0 <= i < j < x.len() implies x[i].id < x[j].id by {
            assert(x[j] == r[j - 1]);
            if i > 0 {
                assert(x[i] == r[i - 1]);
            }
        }
        assert forall|i: int| 0 <= i < x.len() implies (#[trigger] x[i] == t || exists|j: int|
            0 <= j < s.len() && s[j] == x[i]) by {
            if i == 0 {
                assert(s[0] == x[0]);
            } else {
                assert(x[i] == r[i - 1]);
                if r[i - 1] != t {
                    let j = choose|j: int| 0 <= j < rest.len() && rest[j] == r[i - 1];
                    assert(rest[j] == s[j + 1]);
                }
            }
        }
    }
}

/// An index is sorted by id, and for every id it answers with the first
/// transaction of that id in the transactions it was built from, or with
/// nothing where none has the id.
pub proof fn index_keeps_first_of_each_id(ts: Seq<TransactionModel>, id: u64)
    ensures
        sorted_by_id(index_of(ts)),
        lookup(index_of(ts), id) == lookup(ts, id),
    decreases ts.len(),
{
    if ts.len() > 0 {
        let pre = ts.drop_last();
        let t = ts.last();
        let idx = index_of(pre);
        index_keeps_first_of_each_id(pre, id);
        index_keeps_first_of_each_id(pre, t.id);
        assert(ts =~= pre.push(t));
        lemma_lookup_push(pre, t, id);
        if lookup(idx, t.id) is None {
            lemma_lookup_insert_sorted(idx, t, id);
            lemma_insert_sorted_keeps_order(idx, t);
        }
        assert(index_of(ts) == index_insert(idx, t));
    }
}

/// The first pass finds nothing where `b` answers each transaction of `a` with itself.
proof fn lemma_first_pass_empty(a: Seq<TransactionModel>, b: Seq<TransactionModel>)
    requires
        forall|i: int| 0 <= i < a.len() ==> lookup(b, #[trigger] a[i].id) == Some(a[i]),
    ensures
        first_pass(a, b) == Seq::<Difference>::empty(),
    decreases a.len(),
{
    if a.len() > 0 {
        let pre = a.drop_last();
        assert forall|i: int| 0 <= i < pre.len() implies lookup(b, #[trigger] pre[i].id) == Some(pre[i]) by {
            assert(pre[i] == a[i]);
        }
        lemma_first_pass_empty(pre, b);
        assert(lookup(b, a[a.len() - 1].id) == Some(a[a.len() - 1]));
        assert(first_side_difference(a.last(), b) =~= Seq::<Difference>::empty());
        assert(first_pass(a, b) =~= Seq::<Difference>::empty());
    }
}

/// Where the first pass finds nothing, `b` answers each transaction of `a` with itself.
proof fn lemma_first_pass_empty_inverse(a: Seq<TransactionModel>, b: Seq<TransactionModel>)
    requires
        first_pass(a, b).len() == 0,
    ensures
        forall|i: int| 0 <= i < a.len() ==> lookup(b, #[trigger] a[i].id) == Some(a[i]),
    decreases a.len(),
{
    if a.len() > 0 {
        let pre = a.drop_last();
        lemma_first_pass_empty_inverse(pre, b);
        assert(first_side_difference(a.last(), b).len() == 0);
        assert forall|i: int| 0 <= i < a.len() implies lookup(b, #[trigger] a[i].id) == Some(a[i]) by {
            if i < a.len() - 1 {
                assert(pre[i] == a[i]);
            }
        }
    }
}

/// The second pass finds nothing where `a` has each id of `b`.
proof fn lemma_second_pass_empty(a: Seq<TransactionModel>, b: Seq<TransactionModel>)
    requires
        forall|j: int| 0 <= j < b.len() ==> lookup(a, #[trigger] b[j].id) is Some,
    ensures
        second_pass(a, b) == Seq::<Difference>::empty(),
    decreases b.len(),
{
    if b.len() > 0 {
        let pre = b.drop_last();
        assert forall|j: int| 0 <= j < pre.len() implies lookup(a, #[trigger] pre[j].id) is Some by {
            assert(pre[j] == b[j]);
        }
        lemma_second_pass_empty(a, pre);
        assert(lookup(a, b[b.len() - 1].id) is Some);
        assert(second_side_difference(a, b.last()) =~= Seq::<Difference>::empty());
        assert(second_pass(a, b) =~= Seq::<Difference>::empty());
    }
}

/// Where the second pass finds nothing, `a` has each id of `b`.
proof fn lemma_second_pass_empty_inverse(a: Seq<TransactionModel>, b: Seq<TransactionModel>)
    requires
        second_pass(a, b).len() == 0,
    ensures
        forall|j: int| 0 <= j < b.len() ==> lookup(a, #[trigger] b[j].id) is Some,
    decreases b.len(),
{
    if b.len() > 0 {
        let pre = b.drop_last();
        lemma_second_pass_empty_inverse(a, pre);
        assert(second_side_difference(a, b.last()).len() == 0);
        assert forall|j: int| 0 <= j < b.len() implies lookup(a, #[trigger] b[j].id) is Some by {
            if j < b.len() - 1 {
                assert(pre[j] == b[j]);
            }
        }
    }
}

/// The rest of a sequence sorted by id is sorted by id.
proof fn lemma_sorted_tail(s: Seq<TransactionModel>)
    requires
        sorted_by_id(s),
        s.len() > 0,
    ensures
        sorted_by_id(s.drop_first()),
{
    let r = s.drop_first();
    assert forall|i: int, j: int| 0 <= i < j < r.len() implies r[i].id < r[j].id by {
        assert(r[i] == s[i + 1] && r[j] == s[j + 1]);
    }
}

/// Where two sorted sequences start alike and `b` holds each transaction
/// of `a`, the rest of `b` holds each transaction of the rest of `a`.
proof fn lemma_tail_members(a: Seq<TransactionModel>, b: Seq<TransactionModel>)
    requires
        sorted_by_id(a),
        sorted_by_id(b),
        a.len() > 0,
        b.len() > 0,
        a[0] == b[0],
        forall|i: int| 0 <= i < a.len() ==> b.contains(#[trigger] a[i]),
    ensures
        forall|i: int| 0 <= i < a.len() - 1 ==> b.drop_first().contains(#[trigger] a.drop_first()[i]),
{
    let ra = a.drop_first();
    let rb = b.drop_first();
    assert forall|i: int| 0 <= i < ra.len() implies rb.contains(#[trigger] ra[i]) by {
        assert(ra[i] == a[i + 1]);
        assert(b.contains(a[i + 1]));
        let j = choose|j: int| 0 <= j < b.len() && b[j] == a[i + 1];
        assert(a[0].id < a[i + 1].id);
        assert(j != 0);
        assert(rb[j - 1] == b[j]);
    }
}

/// Where each of two sorted sequences holds each transaction of the
/// other, their first transactions are the same.
proof fn lemma_heads_equal(a: Seq<TransactionModel>, b: Seq<TransactionModel>)
    requires
        sorted_by_id(a),
        sorted_by_id(b),
        a.len() > 0,
        b.len() > 0,
        b.contains(a[0]),
        a.contains(b[0]),
    ensures
        a[0] == b[0],
{
    let j0 = choose|j: int| 0 <= j < b.len() && b[j] == a[0];
    let i0 = choose|i: int| 0 <= i < a.len() && a[i] == b[0];
    if j0 > 0 {
        assert(b[0].id < b[j0].id);
        if i0 > 0 {
            assert(a[0].id < a[i0].id);
        }
    }
}

/// Two sequences sorted by id that hold the same transactions are equal.
proof fn lemma_sorted_same_members(a: Seq<TransactionModel>, b: Seq<TransactionModel>)
    requires
        sorted_by_id(a),
        sorted_by_id(b),
        forall|i: int| 0 <= i < a.len() ==> b.contains(#[trigger] a[i]),
        forall|j: int| 0 <= j < b.len() ==> a.contains(#[trigger] b[j]),
    ensures
        a == b,
    decreases a.len() + b.len(),
{
    if a.len() == 0 {
        if b.len() > 0 {
            assert(a.contains(b[0]));
        }
        assert(a =~= b);
    } else if b.len() == 0 {
        assert(b.contains(a[0]));
    } else {
        assert(b.contains(a[0]));
        assert(a.contains(b[0]));
        lemma_heads_equal(a, b);
        lemma_sorted_tail(a);
        lemma_sorted_tail(b);
        lemma_tail_members(a, b);
        lemma_tail_members(b, a);
        lemma_sorted_same_members(a.drop_first(), b.drop_first());
        assert(a =~= seq![a[0]] + a.drop_first());
        assert(b =~= seq![b[0]] + b.drop_first());
    }
}

/// Two sequences sorted by id that answer each id as the map `m` does are equal.
pub(crate) proof fn lemma_same_answers(m: Map<u64, Transaction>, a: Seq<TransactionModel>, b: Seq<TransactionModel>)
    requires
        sorted_by_id(a),
        sorted_by_id(b),
        answers_as(m, a),
        answers_as(m, b),
    ensures
        a == b,
{
    assert forall|i: int| 0 <= i < a.len() implies b.contains(#[trigger] a[i]) by {
        lemma_lookup_sorted(a, i);
        assert(lookup(a, a[i].id) == lookup(b, a[i].id));
        let j = lemma_lookup_found(b, a[i].id);
    }
    assert forall|j: int| 0 <= j < b.len() implies a.contains(#[trigger] b[j]) by {
        lemma_lookup_sorted(b, j);
        assert(lookup(a, b[j].id) == lookup(b, b[j].id));
        let i = lemma_lookup_found(a, b[j].id);
    }
    lemma_sorted_same_members(a, b);
}

/// An index compared with itself shows no difference.
pub proof fn index_equals_itself(s: Seq<TransactionModel>)
    requires
        sorted_by_id(s),
    ensures
        differences(s, s) == Seq::<Difference>::empty(),
{
    assert forall|i: int| 0 <= i < s.len() implies lookup(s, #[trigger] s[i].id) == Some(s[i]) by {
        lemma_lookup_sorted(s, i);
    }
    lemma_first_pass_empty(s, s);
    lemma_second_pass_empty(s, s);
    assert(differences(s, s) =~= Seq::<Difference>::empty());
}

/// Two indexes compare without a difference exactly when they hold the
/// same transactions.
pub proof fn no_difference_iff_equal(a: Seq<TransactionModel>, b: Seq<TransactionModel>)
    requires
        sorted_by_id(a),
        sorted_by_id(b),
    ensures
        differences(a, b).len() == 0 <==> a == b,
{
    if a == b {
        index_equals_itself(a);
    }
    if differences(a, b).len() == 0 {
        lemma_first_pass_empty_inverse(a, b);
        lemma_second_pass_empty_inverse(a, b);
        assert forall|i: int| 0 <= i < a.len() implies b.contains(#[trigger] a[i]) by {
            assert(lookup(b, a[i].id) == Some(a[i]));
            let j = lemma_lookup_found(b, a[i].id);
        }
        assert forall|j: int| 0 <= j < b.len() implies a.contains(#[trigger] b[j]) by {
            assert(lookup(a, b[j].id) is Some);
            let i = lemma_lookup_found(a, b[j].id);
            assert(lookup(b, a[i].id) == Some(a[i]));
            lemma_lookup_sorted(b, j);
        }
        lemma_sorted_same_members(a, b);
    }
}

} // verus!
