//! The mathematical model of a set: the bits that its storage holds, the
//! raw indices that those bits stand for, and what each operation does to
//! them.

use vstd::prelude::*;

verus! {

/// The raw indices whose bit is set.
pub open spec fn members(bits: Seq<bool>) -> Set<usize> {
    Set::new(|i: usize| i < bits.len() && bits[i as int])
}

/// The bit at `i`, where every position past the end counts as unset.
pub open spec fn bit_at(bits: Seq<bool>, i: int) -> bool {
    0 <= i < bits.len() && bits[i]
}

/// `bits`, lengthened with unset bits to at least `n` bits.
pub open spec fn padded(bits: Seq<bool>, n: nat) -> Seq<bool> {
    if n <= bits.len() {
        bits
    } else {
        bits + Seq::new((n - bits.len()) as nat, |i: int| false)
    }
}

/// `bits` after the bit at `i` is set; the storage grows to reach `i`.
pub open spec fn inserted(bits: Seq<bool>, i: usize) -> Seq<bool> {
    padded(bits, (i + 1) as nat).update(i as int, true)
}

/// `bits` after the bit at `i` is unset; the length stays.
pub open spec fn removed(bits: Seq<bool>, i: usize) -> Seq<bool> {
    if i < bits.len() {
        bits.update(i as int, false)
    } else {
        bits
    }
}

/// `bits` after every bit is unset; the length stays.
pub open spec fn cleared(bits: Seq<bool>) -> Seq<bool> {
    Seq::new(bits.len(), |i: int| false)
}

/// The four ways of combining two sets.
#[derive(Debug, Clone, Copy, PartialEq, Eq, Structural)]
pub enum SetOp {
    Union,
    Intersection,
    Difference,
    SymmetricDifference,
}

impl SetOp {
    /// Whether an index belongs to the combination, given whether it
    /// belongs to the left and to the right operand.
    pub open spec fn keeps(self, left: bool, right: bool) -> bool {
        match self {
            SetOp::Union => left || right,
            SetOp::Intersection => left && right,
            SetOp::Difference => left && !right,
            SetOp::SymmetricDifference => left != right,
        }
    }

    /// The combination of two sets of raw indices.
    pub open spec fn of_sets(self, left: Set<usize>, right: Set<usize>) -> Set<usize> {
        match self {
            SetOp::Union => left.union(right),
            SetOp::Intersection => left.intersect(right),
            SetOp::Difference => left.difference(right),
            SetOp::SymmetricDifference => left.difference(right).union(right.difference(left)),
        }
    }
}

/// The combination of two bit patterns, bit for bit; the shorter operand
/// counts as unset past its end.
pub open spec fn combined(op: SetOp, left: Seq<bool>, right: Seq<bool>) -> Seq<bool> {
    Seq::new(
        if left.len() >= right.len() {
            left.len()
        } else {
            right.len()
        },
        |i: int| op.keeps(bit_at(left, i), bit_at(right, i)),
    )
}

/// The number of leading bits that hold every member: one past the highest
/// set bit, or zero where no bit is set.
pub open spec fn trimmed_len(bits: Seq<bool>) -> nat
    decreases bits.len(),
{
    if bits.len() == 0 {
        0
    } else if bits.last() {
        bits.len()
    } else {
        trimmed_len(bits.drop_last())
    }
}

/// The set indices at or after `from`, in ascending order.
pub open spec fn ascending_from(bits: Seq<bool>, from: nat) -> Seq<usize>
    decreases bits.len() - from,
{
    if from >= bits.len() {
        Seq::empty()
    } else if bits[from as int] {
        seq![from as usize] + ascending_from(bits, from + 1)
    } else {
        ascending_from(bits, from + 1)
    }
}

/// Whether `listing` names exactly the indices of `set`, each once, in
/// strictly ascending order.
pub open spec fn lists_ascending(listing: Seq<usize>, set: Set<usize>) -> bool {
    &&& forall|j: int, k: int| 0 <= j < k < listing.len() ==> listing[j] < listing[k]
    &&& forall|i: usize| set.contains(i) <==> listing.contains(i)
}

/// The indices below `n`.
pub open spec fn below(n: nat) -> Set<usize> {
    Set::new(|i: usize| i < n)
}

/// There are finitely many indices below `n`, no more than `n`.
pub proof fn lemma_below_finite(n: nat)
    ensures
        below(n).finite(),
        below(n).len() <= n,
    decreases n,
{
    if n == 0 {
        assert(below(n) =~= Set::<usize>::empty());
    } else {
        lemma_below_finite((n - 1) as nat);
        if n - 1 <= usize::MAX {
            assert(below(n) =~= below((n - 1) as nat).insert((n - 1) as usize));
        } else {
            assert(below(n) =~= below((n - 1) as nat));
        }
    }
}

/// A bit pattern has finitely many members, no more than it has bits.
pub proof fn lemma_members_finite(bits: Seq<bool>)
    ensures
        members(bits).finite(),
        members(bits).len() <= bits.len(),
{
    lemma_below_finite(bits.len());
    assert(members(bits).subset_of(below(bits.len())));
    vstd::set_lib::lemma_len_subset(members(bits), below(bits.len()));
}

/// Setting a bit adds its index to the members and changes no other.
pub proof fn lemma_members_inserted(bits: Seq<bool>, i: usize)
    ensures
        members(inserted(bits, i)) == members(bits).insert(i),
{
    assert(members(inserted(bits, i)) =~= members(bits).insert(i));
}

/// Unsetting a bit takes its index from the members and changes no other.
pub proof fn lemma_members_removed(bits: Seq<bool>, i: usize)
    ensures
        members(removed(bits, i)) == members(bits).remove(i),
{
    assert(members(removed(bits, i)) =~= members(bits).remove(i));
}

/// The members of a combined pattern are the combination of the members.
pub proof fn lemma_members_combined(op: SetOp, left: Seq<bool>, right: Seq<bool>)
    ensures
        members(combined(op, left, right)) == op.of_sets(members(left), members(right)),
{
    assert(members(combined(op, left, right)) =~= op.of_sets(members(left), members(right)));
}

/// The members among the first `k + 1` bits are those among the first `k`,
/// and `k` itself where its bit is set.
pub proof fn lemma_members_take_step(bits: Seq<bool>, k: usize)
    requires
        k < bits.len(),
    ensures
        !members(bits.take(k as int)).contains(k),
        members(bits.take(k + 1)) == if bits[k as int] {
            members(bits.take(k as int)).insert(k)
        } else {
            members(bits.take(k as int))
        },
{
    if bits[k as int] {
        assert(members(bits.take(k + 1)) =~= members(bits.take(k as int)).insert(k));
    } else {
        assert(members(bits.take(k + 1)) =~= members(bits.take(k as int)));
    }
}

/// `trimmed_len` is the one length that ends on a set bit, or at zero, and
/// has only unset bits after it.
pub proof fn lemma_trimmed_len_unique(bits: Seq<bool>, k: nat)
    requires
        k <= bits.len(),
        k == 0 || bits[k - 1],
        forall|i: int| k <= i < bits.len() ==> !bits[i],
    ensures
        trimmed_len(bits) == k,
    decreases bits.len(),
{
    if bits.len() > 0 && !bits.last() {
        lemma_trimmed_len_unique(bits.drop_last(), k);
    }
}

/// Cutting a bit pattern to its trimmed length loses no member.
pub proof fn lemma_trimmed_keeps_members(bits: Seq<bool>)
    ensures
        trimmed_len(bits) <= bits.len(),
        members(bits.take(trimmed_len(bits) as int)) == members(bits),
    decreases bits.len(),
{
    if bits.len() > 0 && !bits.last() {
        let shorter = bits.drop_last();
        lemma_trimmed_keeps_members(shorter);
        let n = trimmed_len(bits) as int;
        assert(shorter.take(n) =~= bits.take(n));
        assert(members(shorter) =~= members(bits));
    } else {
        assert(bits.take(bits.len() as int) =~= bits);
    }
}

/// `bits` after the bits at `idxs` are set one after the other.
pub open spec fn inserted_all(bits: Seq<bool>, idxs: Seq<usize>) -> Seq<bool>
    decreases idxs.len(),
{
    if idxs.len() == 0 {
        bits
    } else {
        inserted(inserted_all(bits, idxs.drop_last()), idxs.last())
    }
}

/// Setting the bits at `idxs` adds exactly those indices to the members.
pub proof fn lemma_members_inserted_all(bits: Seq<bool>, idxs: Seq<usize>)
    ensures
        members(inserted_all(bits, idxs)) == members(bits).union(idxs.to_set()),
    decreases idxs.len(),
{
    if idxs.len() == 0 {
        assert(members(bits).union(idxs.to_set()) =~= members(bits));
    } else {
        let front = idxs.drop_last();
        lemma_members_inserted_all(bits, front);
        lemma_members_inserted(inserted_all(bits, front), idxs.last());
        assert forall|i: usize| idxs.to_set().contains(i) <==> front.to_set().contains(i) || i
            == idxs.last() by {
            if front.contains(i) {
                let k = choose|k: int| 0 <= k < front.len() && front[k] == i;
                assert(idxs[k] == i);
            }
            if i == idxs.last() {
                assert(idxs[idxs.len() - 1] == i);
            }
            if idxs.contains(i) && i != idxs.last() {
                let k = choose|k: int| 0 <= k < idxs.len() && idxs[k] == i;
                assert(front[k] == i);
            }
        }
        assert(members(inserted_all(bits, idxs)) =~= members(bits).union(idxs.to_set()));
    }
}

/// What `ascending_from` lists lies at or after `from`, is set, and comes
/// in strictly ascending order; and every set index from `from` on is
/// listed.
pub proof fn lemma_ascending_from(bits: Seq<bool>, from: nat)
    requires
        bits.len() <= usize::MAX,
    ensures
        forall|k: int|
            0 <= k < ascending_from(bits, from).len() ==> {
                let i = #[trigger] ascending_from(bits, from)[k];
                from <= i < bits.len() && bits[i as int]
            },
        forall|j: int, k: int|
            0 <= j < k < ascending_from(bits, from).len() ==> ascending_from(bits, from)[j]
                < ascending_from(bits, from)[k],
        forall|i: usize|
            from <= i < bits.len() && bits[i as int] ==> ascending_from(bits, from).contains(i),
    decreases bits.len() - from,
{
    if from < bits.len() {
        lemma_ascending_from(bits, from + 1);
        let rest = ascending_from(bits, from + 1);
        let all = ascending_from(bits, from);
        if bits[from as int] {
            assert(all[0] == from as usize);
            assert forall|k: int| 1 <= k < all.len() implies all[k] == rest[k - 1] by {}
            assert forall|i: usize| from <= i < bits.len() && bits[i as int] implies all.contains(
                i,
            ) by {
                if i == from {
                    assert(all[0] == i);
                } else {
                    let k = choose|k: int| 0 <= k < rest.len() && rest[k] == i;
                    assert(all[k + 1] == i);
                }
            }
        }
    }
}

/// Walking a bit pattern from its start lists its members, each once, in
/// strictly ascending order.
pub proof fn lemma_ascending_lists_members(bits: Seq<bool>)
    requires
        bits.len() <= usize::MAX,
    ensures
        lists_ascending(ascending_from(bits, 0), members(bits)),
{
    lemma_ascending_from(bits, 0);
    let all = ascending_from(bits, 0);
    assert forall|i: usize| members(bits).contains(i) <==> all.contains(i) by {
        if all.contains(i) {
            let k = choose|k: int| 0 <= k < all.len() && all[k] == i;
            assert(bits[all[k] as int]);
        }
    }
}

} // verus!
