use vstd::prelude::*;

use crate::note::{all_hold, CondView, Condition, Note, NoteView};

verus! {

/// An ordered collection of notes; insertion order is kept, titles and tags
/// need not be unique across notes.
#[derive(Debug)]
pub struct Ledger {
    pub notes: Vec<Note>,
}

impl View for Ledger {
    type V = Seq<NoteView>;

    open spec fn view(&self) -> Seq<NoteView> {
        self.notes.deep_view()
    }
}

/// The mathematical content of a session: the ledger's notes in order, and
/// the accumulated filter conditions in order.
#[verifier::ext_equal]
pub struct StateView {
    pub notes: Seq<NoteView>,
    pub filter: Seq<CondView>,
}

/// The mutable session context: the ledger and the accumulated filter.
#[derive(Debug)]
pub struct State {
    pub ledger: Ledger,
    pub filter: Vec<Condition>,
}

impl View for State {
    type V = StateView;

    open spec fn view(&self) -> StateView {
        StateView { notes: self.ledger@, filter: self.filter.deep_view() }
    }
}

/// The subsequence of `notes` that satisfies every condition of `conds`, in
/// the order the notes stand in.
pub open spec fn apply_filter(notes: Seq<NoteView>, conds: Seq<CondView>) -> Seq<NoteView> {
    notes.filter(|n: NoteView| all_hold(n, conds))
}

/// Appending a note to the input of `apply_filter` appends it to the output
/// exactly where it satisfies the conditions.
pub proof fn lemma_apply_filter_push(notes: Seq<NoteView>, x: NoteView, conds: Seq<CondView>)
    ensures
        apply_filter(notes.push(x), conds) == (if all_hold(x, conds) {
            apply_filter(notes, conds).push(x)
        } else {
            apply_filter(notes, conds)
        }),
{
    reveal(Seq::filter);
    assert(notes.push(x).drop_last() =~= notes);
    assert(notes.push(x).last() == x);
}

impl State {
    /// A session start: the given ledger and no conditions.
    pub fn begin(ledger: Ledger) -> (s: State)
        ensures
            s@.notes == ledger@,
            s@.filter == Seq::<CondView>::empty(),
    {
        let s = State { ledger, filter: Vec::new() };
        proof {
            assert(s@.filter =~= Seq::<CondView>::empty());
        }
        s
    }

    /// Appends a `Has(tag)` condition; the ledger is untouched.
    pub fn add_has(&mut self, tag: String)
        ensures
            final(self)@.notes == old(self)@.notes,
            final(self)@.filter == old(self)@.filter.push(CondView::Has(tag@)),
    {
        let ghost t = tag@;
        self.filter.push(Condition::Has(tag));
        proof {
            assert(self@.filter =~= old(self)@.filter.push(CondView::Has(t)));
        }
    }

    /// Appends a `Hasnt(tag)` condition; the ledger is untouched.
    pub fn add_hasnt(&mut self, tag: String)
        ensures
            final(self)@.notes == old(self)@.notes,
            final(self)@.filter == old(self)@.filter.push(CondView::Hasnt(tag@)),
    {
        let ghost t = tag@;
        self.filter.push(Condition::Hasnt(tag));
        proof {
            assert(self@.filter =~= old(self)@.filter.push(CondView::Hasnt(t)));
        }
    }

    /// Clears every accumulated condition; the ledger is untouched.
    pub fn reset(&mut self)
        ensures
            final(self)@.notes == old(self)@.notes,
            final(self)@.filter == Seq::<CondView>::empty(),
    {
        self.filter = Vec::new();
        proof {
            assert(self@.filter =~= Seq::<CondView>::empty());
        }
    }

    /// The notes of the ledger that satisfy every accumulated condition, in
    /// the ledger's order; neither the ledger nor the filter changes.
    pub fn apply(&self) -> (out: Vec<Note>)
        ensures
            out.deep_view() == apply_filter(self@.notes, self@.filter),
    {
        let mut out: Vec<Note> = Vec::new();
        proof {
            reveal(Seq::filter);
            assert(self@.notes.take(0) =~= Seq::<NoteView>::empty());
            assert(out.deep_view() =~= apply_filter(self@.notes.take(0), self@.filter));
        }
        let mut i: usize = 0;
        while i < self.ledger.notes.len()
            invariant
                i <= self.ledger.notes.len(),
                out.deep_view() == apply_filter(self@.notes.take(i as int), self@.filter),
            decreases self.ledger.notes.len() - i,
        {
            let ghost prefix = self@.notes.take(i as int);
            let ghost x = self@.notes[i as int];
            let note = &self.ledger.notes[i];
            proof {
                assert(note@ == x);
                assert(self@.notes.take(i + 1) =~= prefix.push(x));
                lemma_apply_filter_push(prefix, x, self@.filter);
            }
            let conds = self.filter.as_slice();
            proof {
                assert(conds.deep_view() =~= self@.filter);
            }
            if note.satisfies(conds) {
                let ghost before = out.deep_view();
                out.push(note.duplicate());
                proof {
                    assert(out.deep_view() =~= before.push(x));
                }
            }
            i += 1;
        }
        proof {
            assert(self@.notes.take(self.ledger.notes.len() as int) =~= self@.notes);
        }
        out
    }
}

} // verus!
