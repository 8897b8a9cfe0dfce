use vstd::prelude::*;

use crate::clock;
use crate::note::{CondView, Note, NoteView};
use crate::state::{apply_filter, State};

verus! {

/// A structured command, the result of parsing one input line.
#[derive(Debug)]
pub enum Command {
    New,
    Reset,
    List,
    Query { has: Vec<String>, hasnt: Vec<String> },
}

#[verifier::ext_equal]
pub enum CmdView {
    New,
    Reset,
    List,
    Query { has: Seq<Seq<char>>, hasnt: Seq<Seq<char>> },
}

impl View for Command {
    type V = CmdView;

    open spec fn view(&self) -> CmdView {
        match self {
            Command::New => CmdView::New,
            Command::Reset => CmdView::Reset,
            Command::List => CmdView::List,
            Command::Query { has, hasnt } => CmdView::Query {
                has: has.deep_view(),
                hasnt: hasnt.deep_view(),
            },
        }
    }
}

/// The conditions that one `query` command appends: a `Has` condition per
/// tag of its `has` group, then a `Hasnt` condition per tag of its `hasnt`
/// group, each group in the caller-given order.
pub open spec fn query_conds(has: Seq<Seq<char>>, hasnt: Seq<Seq<char>>) -> Seq<CondView> {
    has.map_values(|t: Seq<char>| CondView::Has(t)) + hasnt.map_values(
        |t: Seq<char>| CondView::Hasnt(t),
    )
}

/// Dispatches one successfully parsed command against the session state and
/// returns the notes to report: the filtered view for `list`, nothing for the
/// rest.
///
/// `list` changes nothing and reports the ledger as narrowed by the
/// accumulated conditions. `new` appends a note with empty title, empty tag
/// set and a fixed placeholder location; its timestamp comes from the wall
/// clock, so nothing is said of it. `query` appends its conditions in order.
/// `reset` clears the filter. No command fails.
pub fn run(state: &mut State, cmd: Command) -> (out: Vec<Note>)
    ensures
        match cmd@ {
            CmdView::List => {
                &&& final(state)@ == old(state)@
                &&& out.deep_view() == apply_filter(old(state)@.notes, old(state)@.filter)
            },
            CmdView::New => {
                &&& final(state)@.filter == old(state)@.filter
                &&& final(state)@.notes.len() == old(state)@.notes.len() + 1
                &&& final(state)@.notes.take(old(state)@.notes.len() as int) == old(state)@.notes
                &&& final(state)@.notes.last().title == Seq::<char>::empty()
                &&& final(state)@.notes.last().attrs == Set::<Seq<char>>::empty()
                &&& final(state)@.notes.last().path == "a"@
                &&& out.deep_view() == Seq::<NoteView>::empty()
            },
            CmdView::Query { has, hasnt } => {
                &&& final(state)@.notes == old(state)@.notes
                &&& final(state)@.filter == old(state)@.filter + query_conds(has, hasnt)
                &&& out.deep_view() == Seq::<NoteView>::empty()
            },
            CmdView::Reset => {
                &&& final(state)@.notes == old(state)@.notes
                &&& final(state)@.filter == Seq::<CondView>::empty()
                &&& out.deep_view() == Seq::<NoteView>::empty()
            },
        },
{
    match cmd {
        Command::List => {
            return state.apply();
        },
        Command::New => {
            let note = Note {
                title: String::new(),
                date: clock::now_timestamp_nanos(),
                attrs: Vec::new(),
                path: String::from_str("a"),
            };
            proof {
                assert(note@.attrs =~= Set::<Seq<char>>::empty());
            }
            let ghost before = state@.notes;
            state.ledger.notes.push(note);
            proof {
                assert(state@.notes =~= before.push(note@));
                assert(state@.notes.take(before.len() as int) =~= before);
            }
        },
        Command::Query { has, hasnt } => {
            let ghost has0 = has.deep_view();
            let ghost hasnt0 = hasnt.deep_view();
            let ghost filter0 = state@.filter;
            let mut i: usize = 0;
            proof {
                assert(has0.take(0).map_values(|t: Seq<char>| CondView::Has(t)) =~= Seq::<
                    CondView,
                >::empty());
            }
            while i < has.len()
                invariant
                    i <= has.len(),
                    has.deep_view() == has0,
                    state@.notes == old(state)@.notes,
                    state@.filter == filter0 + has0.take(i as int).map_values(
                        (|t: Seq<char>| CondView::Has(t)),
                    ),
                decreases has.len() - i,
            {
                let tag = has[i].clone();
                proof {
                    assert(tag@ == has0[i as int]);
                }
                state.add_has(tag);
                proof {
                    assert(has0.take(i + 1).map_values(|t: Seq<char>| CondView::Has(t)) =~= has0.take(
                        i as int,
                    ).map_values(|t: Seq<char>| CondView::Has(t)).push(
                        CondView::Has(has0[i as int]),
                    ));
                }
                i += 1;
            }
            proof {
                assert(has0.take(has.len() as int) =~= has0);
                assert(hasnt0.take(0).map_values(|t: Seq<char>| CondView::Hasnt(t)) =~= Seq::<
                    CondView,
                >::empty());
                assert(state@.filter + hasnt0.take(0).map_values(
                    (|t: Seq<char>| CondView::Hasnt(t)),
                ) =~= state@.filter);
            }
            let ghost filter1 = state@.filter;
            let mut j: usize = 0;
            while j < hasnt.len()
                invariant
                    j <= hasnt.len(),
                    hasnt.deep_view() == hasnt0,
                    state@.notes == old(state)@.notes,
                    state@.filter == filter1 + hasnt0.take(j as int).map_values(
                        (|t: Seq<char>| CondView::Hasnt(t)),
                    ),
                decreases hasnt.len() - j,
            {
                let tag = hasnt[j].clone();
                proof {
                    assert(tag@ == hasnt0[j as int]);
                }
                state.add_hasnt(tag);
                proof {
                    assert(hasnt0.take(j + 1).map_values(|t: Seq<char>| CondView::Hasnt(t))
                        =~= hasnt0.take(j as int).map_values(|t: Seq<char>| CondView::Hasnt(t)).push(
                        CondView::Hasnt(hasnt0[j as int]),
                    ));
                }
                j += 1;
            }
            proof {
                assert(hasnt0.take(hasnt.len() as int) =~= hasnt0);
                assert(state@.filter =~= filter0 + query_conds(has0, hasnt0));
            }
        },
        Command::Reset => {
            state.reset();
        },
    }
    let out: Vec<Note> = Vec::new();
    proof {
        assert(out.deep_view() =~= Seq::<NoteView>::empty());
    }
    out
}

} // verus!
