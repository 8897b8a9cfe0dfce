use vstd::prelude::*;

use crate::note::{all_hold, cond_holds, CondView, NoteView};
use crate::state::apply_filter;

verus! {

/// Appending a `Has(tag)` condition narrows the filter exactly: a note
/// satisfies the extended condition list iff it carries the tag and satisfied
/// every prior condition.
pub proof fn lemma_add_has_narrows(n: NoteView, conds: Seq<CondView>, tag: Seq<char>)
    ensures
        all_hold(n, conds.push(CondView::Has(tag))) <==> (n.attrs.contains(tag) && all_hold(
            n,
            conds,
        )),
{
    let extended = conds.push(CondView::Has(tag));
    if all_hold(n, extended) {
        assert(cond_holds(extended[conds.len() as int], n));
        assert forall|i: int| 0 <= i < conds.len() implies cond_holds(conds[i], n) by {
            assert(extended[i] == conds[i]);
            assert(cond_holds(extended[i], n));
        };
    }
    if n.attrs.contains(tag) && all_hold(n, conds) {
        assert forall|i: int| 0 <= i < extended.len() implies cond_holds(extended[i], n) by {
            if i < conds.len() {
                assert(extended[i] == conds[i]);
            } else {
                assert(extended[i] == CondView::Has(tag));
            }
        };
    }
}

/// An empty condition list is vacuously satisfied by every note.
pub proof fn lemma_empty_conditions_vacuous(n: NoteView)
    ensures
        all_hold(n, Seq::<CondView>::empty()),
{
}

/// With no conditions accumulated — after a reset — applying the filter
/// returns the whole ledger, in its original order.
pub proof fn lemma_apply_empty_filter(notes: Seq<NoteView>)
    ensures
        apply_filter(notes, Seq::<CondView>::empty()) == notes,
    decreases notes.len(),
{
    reveal(Seq::filter);
    if notes.len() > 0 {
        lemma_apply_empty_filter(notes.drop_last());
        assert(apply_filter(notes, Seq::<CondView>::empty()) =~= notes);
    }
}

/// Inserting a tag a second time changes nothing: the tag set after two
/// insertions equals the tag set after one.
pub proof fn lemma_tag_insert_idempotent(attrs: Set<Seq<char>>, tag: Seq<char>)
    ensures
        attrs.insert(tag).insert(tag) == attrs.insert(tag),
{
    assert(attrs.insert(tag).insert(tag) =~= attrs.insert(tag));
}

/// Whether `a` can be read out of `b` by deleting elements of `b` without
/// reordering the ones that stay.
pub open spec fn is_subsequence_of(a: Seq<NoteView>, b: Seq<NoteView>) -> bool
    decreases b.len(),
{
    if a.len() == 0 {
        true
    } else if b.len() == 0 {
        false
    } else if a.last() == b.last() {
        is_subsequence_of(a.drop_last(), b.drop_last())
    } else {
        is_subsequence_of(a, b.drop_last())
    }
}

/// A subsequence of some prefix of `b` (all but the last element) is a
/// subsequence of `b` itself.
proof fn lemma_subsequence_extend(a: Seq<NoteView>, b: Seq<NoteView>)
    requires
        b.len() > 0,
        is_subsequence_of(a, b.drop_last()),
    ensures
        is_subsequence_of(a, b),
    decreases a.len() + b.len(),
{
    if a.len() == 0 {
    } else if a.last() == b.last() {
        lemma_subsequence_shrink(a, b.drop_last());
    }
}

/// Dropping the last element of a subsequence keeps it a subsequence.
proof fn lemma_subsequence_shrink(a: Seq<NoteView>, b: Seq<NoteView>)
    requires
        a.len() > 0,
        is_subsequence_of(a, b),
    ensures
        is_subsequence_of(a.drop_last(), b),
    decreases a.len() + b.len(),
{
    if a.last() == b.last() {
        lemma_subsequence_extend(a.drop_last(), b);
    } else {
        lemma_subsequence_shrink(a, b.drop_last());
        lemma_subsequence_extend(a.drop_last(), b);
    }
}

/// Applying a filter never reorders: whatever the conditions, the result is a
/// subsequence of the ledger's notes, in the ledger's order.
pub proof fn lemma_apply_preserves_order(notes: Seq<NoteView>, conds: Seq<CondView>)
    ensures
        is_subsequence_of(apply_filter(notes, conds), notes),
    decreases notes.len(),
{
    reveal(Seq::filter);
    if notes.len() == 0 {
        assert(apply_filter(notes, conds).len() == 0);
    } else {
        let prefix = notes.drop_last();
        lemma_apply_preserves_order(prefix, conds);
        if all_hold(notes.last(), conds) {
            assert(apply_filter(notes, conds) == apply_filter(prefix, conds).push(notes.last()));
            assert(apply_filter(notes, conds).drop_last() =~= apply_filter(prefix, conds));
        } else {
            assert(apply_filter(notes, conds) == apply_filter(prefix, conds));
            lemma_subsequence_extend(apply_filter(notes, conds), notes);
        }
    }
}

} // verus!
