//! Indexing transactions by id and comparing two indexes.

use std::collections::BTreeMap;

use vstd::prelude::*;

use crate::convert::transactions_view;
use crate::transaction::{Transaction, TransactionModel};

verus! {

/// The transaction with id `id` in `s`, the first one if several.
pub open spec fn lookup(s: Seq<TransactionModel>, id: u64) -> Option<TransactionModel>
    decreases s.len(),
{
    if s.len() == 0 {
        None
    } else if s[0].id == id {
        Some(s[0])
    } else {
        lookup(s.drop_first(), id)
    }
}

/// Ids strictly increasing: sorted by id, no id twice.
pub open spec fn sorted_by_id(s: Seq<TransactionModel>) -> bool {
    forall|i: int, j: int| 0 <= i < j < s.len() ==> s[i].id < s[j].id
}

/// `t` put into the sorted `s` before the first transaction of a larger id.
pub open spec fn insert_sorted(s: Seq<TransactionModel>, t: TransactionModel) -> Seq<TransactionModel>
    decreases s.len(),
{
    if s.len() == 0 {
        seq![t]
    } else if t.id < s[0].id {
        seq![t] + s
    } else {
        seq![s[0]] + insert_sorted(s.drop_first(), t)
    }
}

/// Adding `t` to an index: kept out where its id is present already.
pub open spec fn index_insert(s: Seq<TransactionModel>, t: TransactionModel) -> Seq<TransactionModel> {
    if lookup(s, t.id) is Some {
        s
    } else {
        insert_sorted(s, t)
    }
}

/// The index of `ts`: the first transaction of each id, sorted by id.
pub open spec fn index_of(ts: Seq<TransactionModel>) -> Seq<TransactionModel>
    decreases ts.len(),
{
    if ts.len() == 0 {
        seq![]
    } else {
        index_insert(index_of(ts.drop_last()), ts.last())
    }
}

/// The ids of the transactions of `ts` that repeat an earlier id with
/// different contents, in the order they come.
pub open spec fn conflicts_of(ts: Seq<TransactionModel>) -> Seq<u64>
    decreases ts.len(),
{
    if ts.len() == 0 {
        seq![]
    } else {
        let earlier = lookup(index_of(ts.drop_last()), ts.last().id);
        conflicts_of(ts.drop_last()) + if earlier is Some && earlier->0 != ts.last() {
            seq![ts.last().id]
        } else {
            Seq::<u64>::empty()
        }
    }
}

/// What adding a transaction to an index came to.
#[derive(Clone, Copy, PartialEq, Eq, Structural, Debug)]
pub enum InsertOutcome {
    /// Its id was new: it was added.
    Inserted,
    /// An equal transaction of that id was there: nothing changed.
    Duplicate,
    /// A different transaction of that id was there: nothing changed.
    Conflict,
}

/// `lookup` finds nothing where no transaction has the id.
pub proof fn lemma_lookup_absent(s: Seq<TransactionModel>, id: u64)
    requires
        forall|i: int| 0 <= i < s.len() ==> s[i].id != id,
    ensures
        lookup(s, id) is None,
    decreases s.len(),
{
    if s.len() > 0 {
        assert forall|i: int| 0 <= i < s.drop_first().len() implies s.drop_first()[i].id != id by {
            assert(s.drop_first()[i] == s[i + 1]);
        }
        lemma_lookup_absent(s.drop_first(), id);
    }
}

/// `lookup` finds the first transaction of its id.
proof fn lemma_lookup_first(s: Seq<TransactionModel>, i: int)
    requires
        0 <= i < s.len(),
        forall|j: int| 0 <= j < i ==> s[j].id != s[i].id,
    ensures
        lookup(s, s[i].id) == Some(s[i]),
    decreases i,
{
    if i > 0 {
        assert(s.drop_first()[i - 1] == s[i]);
        assert forall|j: int| 0 <= j < i - 1 implies #[trigger] s.drop_first()[j].id != s.drop_first()[i - 1].id by {
            assert(s.drop_first()[j] == s[j + 1]);
        }
        lemma_lookup_first(s.drop_first(), i - 1);
    }
}

/// In an index sorted by id, `lookup` finds each of its transactions.
pub proof fn lemma_lookup_sorted(s: Seq<TransactionModel>, i: int)
    requires
        sorted_by_id(s),
        0 <= i < s.len(),
    ensures
        lookup(s, s[i].id) == Some(s[i]),
{
    lemma_lookup_first(s, i);
}

/// `u64` keys of a `BTreeMap` order as the integers do.
proof fn lemma_keys_ordered()
    ensures
        vstd::laws_cmp::obeys_cmp::<u64>(),
        vstd::std_specs::btree::key_obeys_cmp_spec::<u64>(),
{
    broadcast use vstd::laws_cmp::group_laws_cmp;
    broadcast use vstd::std_specs::btree::group_btree_axioms;
}

/// A sequence of `u64` keys that a `BTreeMap` calls increasing rises strictly.
proof fn lemma_increasing_keys(ks: Seq<u64>)
    requires
        vstd::std_specs::btree::increasing_seq(ks),
    ensures
        forall|i: int, j: int| 0 <= i < j < ks.len() ==> ks[i] < ks[j],
{
    broadcast use vstd::laws_cmp::group_laws_cmp;
    broadcast use vstd::std_specs::btree::group_btree_axioms;
    assert forall|i: int, j: int| 0 <= i < j < ks.len() implies ks[i] < ks[j] by {
        assert(vstd::std_specs::cmp::OrdSpec::cmp_spec(&ks[i], &ks[j]) is Less);
    }
}

/// `s` answers each id as the map `m` does: with the transaction `m`
/// holds under that id, or with nothing.
pub open spec fn answers_as(m: Map<u64, Transaction>, s: Seq<TransactionModel>) -> bool {
    forall|id: u64|
        #![trigger lookup(s, id)]
        #![trigger m.contains_key(id)]
        lookup(s, id) == if m.contains_key(id) {
            Some(m[id]@)
        } else {
            None::<TransactionModel>
        }
}

/// The transactions that the references point to.
pub open spec fn referenced(r: Seq<&Transaction>) -> Seq<TransactionModel> {
    r.map_values(|t: &Transaction| t@)
}

/// Transactions indexed by id: the first transaction of each id, held in a
/// map from id to transaction.
pub struct TransactionIndex {
    by_id: BTreeMap<u64, Transaction>,
    entries: Ghost<Seq<TransactionModel>>,
}

impl TransactionIndex {
    #[verifier::type_invariant]
    spec fn entries_match(&self) -> bool {
        &&& sorted_by_id(self.entries@)
        &&& answers_as(self.by_id@, self.entries@)
    }

    /// The transactions, sorted by id.
    pub closed spec fn entries(&self) -> Seq<TransactionModel> {
        self.entries@
    }

    /// An empty index.
    pub fn new() -> (r: Self)
        ensures
            r.entries() == Seq::<TransactionModel>::empty(),
    {
        TransactionIndex { by_id: BTreeMap::new(), entries: Ghost(Seq::empty()) }
    }

    /// The transaction of id `id`, if the index holds one.
    pub fn get(&self, id: u64) -> (r: Option<&Transaction>)
        ensures
            match r {
                None => lookup(self.entries(), id) is None,
                Some(t) => lookup(self.entries(), id) == Some(t@),
            },
    {
        proof {
            use_type_invariant(self);
            lemma_keys_ordered();
        }
        self.by_id.get(&id)
    }

    /// Whether the index holds a transaction of id `id`.
    pub fn contains(&self, id: u64) -> (r: bool)
        ensures
            r == lookup(self.entries(), id) is Some,
    {
        proof {
            use_type_invariant(self);
            lemma_keys_ordered();
        }
        self.by_id.contains_key(&id)
    }

    /// The transactions, in increasing order of id, as the map walks them.
    pub fn transactions(&self) -> (r: Vec<&Transaction>)
        ensures
            referenced(r@) == self.entries(),
            sorted_by_id(self.entries()),
    {
        proof {
            use_type_invariant(self);
            lemma_keys_ordered();
        }
        let ghost m = self.by_id@;
        let ghost s = self.entries@;
        let mut r: Vec<&Transaction> = Vec::new();
        let values = self.by_id.values();
        let ghost ks = choose|ks: Seq<u64>|
            {
                &&& vstd::std_specs::btree::increasing_seq(ks)
                &&& ks.to_set() == m.dom()
                &&& ks.no_duplicates()
                &&& vstd::std_specs::iter::IteratorSpec::remaining(&values) == ks.map(|i: int, k: u64| &m[k])
            };
        for t in it: values
            invariant
                r@.len() == it.index(),
                forall|i: int| 0 <= i < it.index() ==> r@[i] == it.seq()[i],
        {
            r.push(t);
        }
        proof {
            lemma_increasing_keys(ks);
            let rm = referenced(r@);
            assert(rm.len() == ks.len());
            assert forall|i: int| 0 <= i < ks.len() implies m.contains_key(#[trigger] ks[i]) && rm[i] == m[ks[i]]@
                && rm[i].id == ks[i] by {
                assert(ks.to_set().contains(ks[i]));
                let k = ks[i];
                assert(lookup(s, k) == Some(m[k]@));
                let j = crate::compare_laws::lemma_lookup_found(s, k);
            }
            assert(sorted_by_id(rm));
            assert forall|id: u64| #[trigger]
                lookup(rm, id) == if m.contains_key(id) {
                    Some(m[id]@)
                } else {
                    None::<TransactionModel>
                } by {
                if m.contains_key(id) {
                    assert(ks.to_set().contains(id));
                    let i = choose|i: int| 0 <= i < ks.len() && ks[i] == id;
                    lemma_lookup_sorted(rm, i);
                } else {
                    assert forall|i: int| 0 <= i < rm.len() implies rm[i].id != id by {
                        assert(ks.to_set().contains(ks[i]));
                    }
                    lemma_lookup_absent(rm, id);
                }
            }
            crate::compare_laws::lemma_same_answers(m, rm, s);
        }
        r
    }

    /// Adds `t` unless its id is present: the index afterwards is
    /// `index_insert` of it; the outcome says whether `t` was added, or
    /// whether the transaction there equals it.
    pub fn insert(&mut self, t: Transaction) -> (r: InsertOutcome)
        ensures
            final(self).entries() == index_insert(old(self).entries(), t@),
            r == (match lookup(old(self).entries(), t@.id) {
                None => InsertOutcome::Inserted,
                Some(u) => if u == t@ {
                    InsertOutcome::Duplicate
                } else {
                    InsertOutcome::Conflict
                },
            }),
    {
        proof {
            use_type_invariant(&*self);
            lemma_keys_ordered();
        }
        let ghost s = self.entries@;
        let ghost m = self.by_id@;
        let id = t.id();
        let same: Option<bool> = match self.by_id.get(&id) {
            Some(u) => Some(*u == t),
            None => None,
        };
        match same {
            Some(true) => InsertOutcome::Duplicate,
            Some(false) => InsertOutcome::Conflict,
            None => {
                let ghost tm = t@;
                let ghost grown = insert_sorted(s, tm);
                proof {
                    crate::compare_laws::lemma_insert_sorted_keeps_order(s, tm);
                }
                let mut taken = TransactionIndex::new();
                std::mem::swap(self, &mut taken);
                let TransactionIndex { mut by_id, entries: _ } = taken;
                by_id.insert(id, t);
                proof {
                    assert(by_id@ == m.insert(id, t));
                    assert forall|k: u64| #[trigger]
                        lookup(grown, k) == if by_id@.contains_key(k) {
                            Some(by_id@[k]@)
                        } else {
                            None::<TransactionModel>
                        } by {
                        crate::compare_laws::lemma_lookup_insert_sorted(s, tm, k);
                        assert(lookup(s, k) == if m.contains_key(k) {
                            Some(m[k]@)
                        } else {
                            None::<TransactionModel>
                        });
                    }
                }
                *self = TransactionIndex { by_id, entries: Ghost(grown) };
                InsertOutcome::Inserted
            },
        }
    }
}

/// Indexes `ts`: the first transaction of each id, sorted by id, and the
/// ids of the later transactions that repeat an id with different contents.
pub fn index_transactions(ts: Vec<Transaction>) -> (r: (TransactionIndex, Vec<u64>))
    ensures
        r.0.entries() == index_of(transactions_view(ts@)),
        r.1@ == conflicts_of(transactions_view(ts@)),
{
    let ghost all = transactions_view(ts@);
    let mut index = TransactionIndex::new();
    let mut conflicts: Vec<u64> = Vec::new();
    let mut src = ts;
    let mut rest: Vec<Transaction> = Vec::new();
    while src.len() > 0
        invariant
            src@.len() + rest@.len() == all.len(),
            forall|j: int| 0 <= j < src@.len() ==> #[trigger] src@[j]@ == all[j],
            forall|j: int| 0 <= j < rest@.len() ==> #[trigger] rest@[j]@ == all[all.len() - 1 - j],
        decreases src@.len(),
    {
        let t = src.pop().unwrap();
        rest.push(t);
    }
    assert(index_of(all.take(0)) =~= Seq::<TransactionModel>::empty());
    assert(conflicts_of(all.take(0)) =~= Seq::<u64>::empty());
    while rest.len() > 0
        invariant
            rest@.len() <= all.len(),
            forall|j: int| 0 <= j < rest@.len() ==> #[trigger] rest@[j]@ == all[all.len() - 1 - j],
            index.entries() == index_of(all.take(all.len() - rest@.len())),
            conflicts@ == conflicts_of(all.take(all.len() - rest@.len())),
        decreases rest@.len(),
    {
        let ghost k = all.len() - rest@.len();
        let t = rest.pop().unwrap();
        let ghost pre = all.take(k);
        assert(all.take(k + 1).drop_last() =~= pre);
        assert(all.take(k + 1).last() == t@);
        let id = t.id();
        let outcome = index.insert(t);
        if outcome == InsertOutcome::Conflict {
            conflicts.push(id);
        }
        assert(conflicts@ =~= conflicts_of(all.take(k + 1)));
    }
    assert(all.take(all.len() as int) =~= all);
    (index, conflicts)
}

/// One way in which two indexes of transactions differ.
#[derive(Clone, Copy, PartialEq, Eq, Structural, Debug)]
pub enum Difference {
    /// Both indexes hold a transaction of this id, and the two differ.
    Different { id: u64 },
    /// Only the first index holds a transaction of this id.
    MissingInSecond { id: u64 },
    /// Only the second index holds a transaction of this id.
    MissingInFirst { id: u64 },
}

/// What `t` of the first index comes to against the second index `b`.
pub open spec fn first_side_difference(t: TransactionModel, b: Seq<TransactionModel>) -> Seq<Difference> {
    match lookup(b, t.id) {
        Some(u) => if u == t {
            Seq::<Difference>::empty()
        } else {
            seq![Difference::Different { id: t.id }]
        },
        None => seq![Difference::MissingInSecond { id: t.id }],
    }
}

/// What `t` of the second index comes to against the first index `a`.
pub open spec fn second_side_difference(a: Seq<TransactionModel>, t: TransactionModel) -> Seq<Difference> {
    if lookup(a, t.id) is Some {
        Seq::<Difference>::empty()
    } else {
        seq![Difference::MissingInFirst { id: t.id }]
    }
}

/// The differences found walking `a` in order, each against `b`.
pub open spec fn first_pass(a: Seq<TransactionModel>, b: Seq<TransactionModel>) -> Seq<Difference>
    decreases a.len(),
{
    if a.len() == 0 {
        seq![]
    } else {
        first_pass(a.drop_last(), b) + first_side_difference(a.last(), b)
    }
}

/// The transactions of `b`, in order, that `a` has no transaction of their id for.
pub open spec fn second_pass(a: Seq<TransactionModel>, b: Seq<TransactionModel>) -> Seq<Difference>
    decreases b.len(),
{
    if b.len() == 0 {
        seq![]
    } else {
        second_pass(a, b.drop_last()) + second_side_difference(a, b.last())
    }
}

/// All differences of `a` against `b`: those found walking `a`, then the
/// ids that only `b` has.
pub open spec fn differences(a: Seq<TransactionModel>, b: Seq<TransactionModel>) -> Seq<Difference> {
    first_pass(a, b) + second_pass(a, b)
}

/// Compares two indexes: first each transaction of `first` in id order,
/// a `Different` where `second` holds another transaction of its id and a
/// `MissingInSecond` where it holds none; then each transaction of
/// `second` in id order whose id `first` lacks, a `MissingInFirst`.
pub fn compare_transactions(first: &TransactionIndex, second: &TransactionIndex) -> (r: Vec<Difference>)
    ensures
        r@ == differences(first.entries(), second.entries()),
{
    let a = first.transactions();
    let b = second.transactions();
    let ghost sa = first.entries();
    let ghost sb = second.entries();
    let mut r: Vec<Difference> = Vec::new();
    let mut i: usize = 0;
    assert(sa.take(0) =~= Seq::<TransactionModel>::empty());
    while i < a.len()
        invariant
            i <= a@.len(),
            sa == referenced(a@),
            sa == first.entries(),
            sb == second.entries(),
            r@ == first_pass(sa.take(i as int), sb),
        decreases a@.len() - i,
    {
        let t = a[i];
        assert(sa.take(i + 1).drop_last() =~= sa.take(i as int));
        assert(sa.take(i + 1).last() == t@);
        match second.get(t.id()) {
            Some(u) => {
                if *u != *t {
                    r.push(Difference::Different { id: t.id() });
                }
            },
            None => {
                r.push(Difference::MissingInSecond { id: t.id() });
            },
        }
        assert(r@ =~= first_pass(sa.take(i + 1), sb));
        i = i + 1;
    }
    assert(sa.take(a@.len() as int) =~= sa);
    let ghost firsts = r@;
    let mut k: usize = 0;
    assert(sb.take(0) =~= Seq::<TransactionModel>::empty());
    assert(firsts + second_pass(sa, sb.take(0)) =~= firsts);
    while k < b.len()
        invariant
            k <= b@.len(),
            sa == first.entries(),
            sb == referenced(b@),
            r@ == firsts + second_pass(sa, sb.take(k as int)),
        decreases b@.len() - k,
    {
        let t = b[k];
        assert(sb.take(k + 1).drop_last() =~= sb.take(k as int));
        assert(sb.take(k + 1).last() == t@);
        if !first.contains(t.id()) {
            r.push(Difference::MissingInFirst { id: t.id() });
        }
        assert(r@ =~= firsts + second_pass(sa, sb.take(k + 1)));
        k = k + 1;
    }
    assert(sb.take(b@.len() as int) =~= sb);
    r
}

/// How many differences there are of each kind.
#[derive(Clone, Copy, PartialEq, Eq, Structural, Debug)]
pub struct DifferenceCounts {
    pub different: u64,
    pub missing_in_second: u64,
    pub missing_in_first: u64,
}

/// How many of `d` are of the same kind as `kind` (its id aside).
pub open spec fn count_of(d: Seq<Difference>, kind: Difference) -> nat
    decreases d.len(),
{
    if d.len() == 0 {
        0
    } else {
        count_of(d.drop_last(), kind) + if same_kind(d.last(), kind) {
            1nat
        } else {
            0nat
        }
    }
}

/// Whether two differences are of the same kind.
pub open spec fn same_kind(a: Difference, b: Difference) -> bool {
    match (a, b) {
        (Difference::Different { .. }, Difference::Different { .. }) => true,
        (Difference::MissingInSecond { .. }, Difference::MissingInSecond { .. }) => true,
        (Difference::MissingInFirst { .. }, Difference::MissingInFirst { .. }) => true,
        _ => false,
    }
}

proof fn lemma_count_of_bound(d: Seq<Difference>, kind: Difference)
    ensures
        count_of(d, kind) <= d.len(),
    decreases d.len(),
{
    if d.len() > 0 {
        lemma_count_of_bound(d.drop_last(), kind);
    }
}

/// Each difference is counted under its own kind and that kind alone:
/// the count of a kind is the number of differences of that kind, and the
/// three counts add up to the number of differences.
pub proof fn difference_counts_partition(d: Seq<Difference>)
    ensures
        count_of(d, Difference::Different { id: 0 }) == d.filter(|x: Difference| x is Different).len(),
        count_of(d, Difference::MissingInSecond { id: 0 }) == d.filter(|x: Difference| x is MissingInSecond).len(),
        count_of(d, Difference::MissingInFirst { id: 0 }) == d.filter(|x: Difference| x is MissingInFirst).len(),
        count_of(d, Difference::Different { id: 0 }) + count_of(d, Difference::MissingInSecond { id: 0 })
            + count_of(d, Difference::MissingInFirst { id: 0 }) == d.len(),
    decreases d.len(),
{
    reveal(Seq::filter);
    if d.len() > 0 {
        difference_counts_partition(d.drop_last());
        let f1 = |x: Difference| x is Different;
        let f2 = |x: Difference| x is MissingInSecond;
        let f3 = |x: Difference| x is MissingInFirst;
        assert(d.filter(f1).len() == d.drop_last().filter(f1).len() + if f1(d.last()) { 1int } else { 0int });
        assert(d.filter(f2).len() == d.drop_last().filter(f2).len() + if f2(d.last()) { 1int } else { 0int });
        assert(d.filter(f3).len() == d.drop_last().filter(f3).len() + if f3(d.last()) { 1int } else { 0int });
    }
}

/// Counts the differences of each kind.
pub fn count_differences(d: &[Difference]) -> (r: DifferenceCounts)
    ensures
        r.different == count_of(d@, Difference::Different { id: 0 }),
        r.missing_in_second == count_of(d@, Difference::MissingInSecond { id: 0 }),
        r.missing_in_first == count_of(d@, Difference::MissingInFirst { id: 0 }),
        r.different == d@.filter(|x: Difference| x is Different).len(),
        r.missing_in_second == d@.filter(|x: Difference| x is MissingInSecond).len(),
        r.missing_in_first == d@.filter(|x: Difference| x is MissingInFirst).len(),
        r.different + r.missing_in_second + r.missing_in_first == d@.len(),
{
    let mut r = DifferenceCounts { different: 0, missing_in_second: 0, missing_in_first: 0 };
    let mut i: usize = 0;
    assert(d@.take(0) =~= Seq::<Difference>::empty());
    while i < d.len()
        invariant
            i <= d@.len(),
            r.different == count_of(d@.take(i as int), Difference::Different { id: 0 }),
            r.missing_in_second == count_of(d@.take(i as int), Difference::MissingInSecond { id: 0 }),
            r.missing_in_first == count_of(d@.take(i as int), Difference::MissingInFirst { id: 0 }),
        decreases d@.len() - i,
    {
        assert(d@.take(i + 1).drop_last() =~= d@.take(i as int));
        assert(d@.take(i + 1).last() == d@[i as int]);
        proof {
            lemma_count_of_bound(d@.take(i as int), Difference::Different { id: 0 });
            lemma_count_of_bound(d@.take(i as int), Difference::MissingInSecond { id: 0 });
            lemma_count_of_bound(d@.take(i as int), Difference::MissingInFirst { id: 0 });
        }
        match d[i] {
            Difference::Different { .. } => {
                r.different = r.different + 1;
            },
            Difference::MissingInSecond { .. } => {
                r.missing_in_second = r.missing_in_second + 1;
            },
            Difference::MissingInFirst { .. } => {
                r.missing_in_first = r.missing_in_first + 1;
            },
        }
        i = i + 1;
    }
    assert(d@.take(d@.len() as int) =~= d@);
    proof {
        difference_counts_partition(d@);
    }
    r
}

} // verus!
