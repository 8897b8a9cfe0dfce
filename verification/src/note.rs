use vstd::prelude::*;

use crate::clock;

verus! {

/// The mathematical content of a note: its tags form a set, with no order and
/// no duplicates; the date is only carried, never computed with.
#[verifier::ext_equal]
pub struct NoteView {
    pub title: Seq<char>,
    pub date: int,
    pub attrs: Set<Seq<char>>,
    pub path: Seq<char>,
}

/// A single record of the ledger: a title, a creation timestamp, a set of
/// free-form tags, and an opaque storage-location reference.
#[derive(Debug)]
pub struct Note {
    pub title: String,
    pub date: i64,
    /// The tag set, held as a vector; its view is the set of the tag strings.
    pub attrs: Vec<String>,
    pub path: String,
}

impl View for Note {
    type V = NoteView;

    open spec fn view(&self) -> NoteView {
        NoteView {
            title: self.title@,
            date: self.date as int,
            attrs: self.attrs.deep_view().to_set(),
            path: self.path@,
        }
    }
}

impl DeepView for Note {
    type V = NoteView;

    open spec fn deep_view(&self) -> NoteView {
        self.view()
    }
}

/// A single predicate over a note's tag set: the tag is present, or absent.
#[derive(Debug)]
pub enum Condition {
    Has(String),
    Hasnt(String),
}

pub enum CondView {
    Has(Seq<char>),
    Hasnt(Seq<char>),
}

impl View for Condition {
    type V = CondView;

    open spec fn view(&self) -> CondView {
        match self {
            Condition::Has(tag) => CondView::Has(tag@),
            Condition::Hasnt(tag) => CondView::Hasnt(tag@),
        }
    }
}

impl DeepView for Condition {
    type V = CondView;

    open spec fn deep_view(&self) -> CondView {
        self.view()
    }
}

/// Whether a note satisfies one condition.
pub open spec fn cond_holds(c: CondView, n: NoteView) -> bool {
    match c {
        CondView::Has(tag) => n.attrs.contains(tag),
        CondView::Hasnt(tag) => !n.attrs.contains(tag),
    }
}

/// Whether a note satisfies every condition of a list; an empty list is
/// vacuously satisfied.
pub open spec fn all_hold(n: NoteView, conds: Seq<CondView>) -> bool {
    forall|i: int| 0 <= i < conds.len() ==> cond_holds(conds[i], n)
}

impl Condition {
    /// Pure predicate check of one condition against one note.
    pub fn check(&self, note: &Note) -> (r: bool)
        ensures
            r == cond_holds(self@, note@),
    {
        match self {
            Condition::Has(tag) => note.has_tag(tag),
            Condition::Hasnt(tag) => !note.has_tag(tag),
        }
    }
}

impl Note {
    /// A fresh note: the given title and location, the current timestamp, and
    /// no tags. The timestamp comes from the wall clock, so nothing is said
    /// of it.
    pub fn new(title: String, path: String) -> (n: Note)
        ensures
            n@.title == title@,
            n@.attrs == Set::<Seq<char>>::empty(),
            n@.path == path@,
    {
        let n = Note { title, date: clock::now_timestamp_nanos(), attrs: Vec::new(), path };
        proof {
            assert(n@.attrs =~= Set::<Seq<char>>::empty());
        }
        n
    }

    /// Whether `tag` is one of this note's tags.
    pub fn has_tag(&self, tag: &String) -> (r: bool)
        ensures
            r == self@.attrs.contains(tag@),
    {
        let mut i: usize = 0;
        while i < self.attrs.len()
            invariant
                i <= self.attrs.len(),
                forall|j: int| 0 <= j < i ==> self.attrs@[j]@ != tag@,
            decreases self.attrs.len() - i,
        {
            if self.attrs[i] == *tag {
                proof {
                    assert(self.attrs.deep_view()[i as int] == tag@);
                }
                return true;
            }
            i += 1;
        }
        proof {
            assert(!self@.attrs.contains(tag@)) by {
                if self.attrs.deep_view().contains(tag@) {
                    let j = choose|j: int|
                        0 <= j < self.attrs.deep_view().len() && self.attrs.deep_view()[j] == tag@;
                    assert(self.attrs@[j]@ == tag@);
                }
            }
        }
        false
    }

    /// Inserts `tag` into the note's tag set; idempotent where the tag is
    /// already present. Title, date and location are untouched.
    pub fn with(&mut self, tag: String)
        ensures
            final(self)@.attrs == old(self)@.attrs.insert(tag@),
            final(self)@.title == old(self)@.title,
            final(self)@.date == old(self)@.date,
            final(self)@.path == old(self)@.path,
    {
        if self.has_tag(&tag) {
            proof {
                assert(self@.attrs =~= old(self)@.attrs.insert(tag@));
            }
        } else {
            let ghost old_dv = self.attrs.deep_view();
            let ghost t = tag@;
            self.attrs.push(tag);
            proof {
                let new_dv = self.attrs.deep_view();
                assert(new_dv =~= old_dv.push(t));
                assert forall|y: Seq<char>| new_dv.contains(y) implies old_dv.contains(y) || y
                    == t by {
                    let k = choose|k: int| 0 <= k < new_dv.len() && new_dv[k] == y;
                    if k < old_dv.len() {
                        assert(old_dv[k] == y);
                    }
                };
                assert forall|y: Seq<char>| old_dv.contains(y) || y == t implies new_dv.contains(
                    y,
                ) by {
                    if old_dv.contains(y) {
                        let k = choose|k: int| 0 <= k < old_dv.len() && old_dv[k] == y;
                        assert(new_dv[k] == y);
                    } else {
                        assert(new_dv[old_dv.len() as int] == t);
                    }
                };
                assert(self@.attrs =~= old(self)@.attrs.insert(t));
            }
        }
    }

    /// Whether this note satisfies every condition of `conds`.
    pub fn satisfies(&self, conds: &[Condition]) -> (r: bool)
        ensures
            r == all_hold(self@, conds.deep_view()),
    {
        let mut i: usize = 0;
        while i < conds.len()
            invariant
                i <= conds.len(),
                forall|j: int| 0 <= j < i ==> cond_holds(conds.deep_view()[j], self@),
            decreases conds.len() - i,
        {
            let holds = conds[i].check(self);
            proof {
                assert(conds.deep_view()[i as int] == conds[i as int]@);
            }
            if !holds {
                return false;
            }
            i += 1;
        }
        true
    }

    /// An equal note: every field keeps its value.
    pub fn duplicate(&self) -> (n: Note)
        ensures
            n@ == self@,
    {
        let attrs = self.attrs.clone();
        proof {
            assert forall|i: int| 0 <= i < self.attrs@.len() implies attrs@[i] == self.attrs@[i] by {
                assert(cloned::<String>(self.attrs[i], attrs[i]));
            };
            assert(attrs@ =~= self.attrs@);
        }
        let n = Note {
            title: self.title.clone(),
            date: self.date,
            attrs,
            path: self.path.clone(),
        };
        proof {
            assert(n@ =~= self@);
        }
        n
    }
}

} // verus!
