use vstd::prelude::*;

use crate::session::{CmdView, Command};

verus! {

/// Why an input line was rejected. A rejected line never touches the ledger
/// or the filter; the session goes on.
#[derive(Debug)]
pub enum ParseError {
    /// The line held no tokens at all.
    Empty,
    /// The first token names no known command.
    UnknownCommand(String),
    /// A token followed a command that takes no arguments.
    UnexpectedArgument(String),
    /// A `query` token where a flag was expected is none of the four flag
    /// spellings.
    UnknownOption(String),
    /// A flag stood last on the line, with no value after it.
    MissingValue(String),
}

#[verifier::ext_equal]
pub enum ErrView {
    Empty,
    UnknownCommand(Seq<char>),
    UnexpectedArgument(Seq<char>),
    UnknownOption(Seq<char>),
    MissingValue(Seq<char>),
}

impl View for ParseError {
    type V = ErrView;

    open spec fn view(&self) -> ErrView {
        match self {
            ParseError::Empty => ErrView::Empty,
            ParseError::UnknownCommand(t) => ErrView::UnknownCommand(t@),
            ParseError::UnexpectedArgument(t) => ErrView::UnexpectedArgument(t@),
            ParseError::UnknownOption(t) => ErrView::UnknownOption(t@),
            ParseError::MissingValue(t) => ErrView::MissingValue(t@),
        }
    }
}

/// The comma-separated pieces of `s`, in order: one piece per run between
/// commas, empty pieces kept, so the result always holds one piece more than
/// `s` holds commas.
pub open spec fn split_commas_spec(s: Seq<char>) -> Seq<Seq<char>>
    decreases s.len(),
{
    if s.len() == 0 {
        seq![Seq::<char>::empty()]
    } else if s[0] == ',' {
        seq![Seq::<char>::empty()] + split_commas_spec(s.skip(1))
    } else {
        let rest = split_commas_spec(s.skip(1));
        seq![seq![s[0]] + rest[0]] + rest.skip(1)
    }
}

/// A split always yields at least one piece.
pub proof fn lemma_split_commas_nonempty(s: Seq<char>)
    ensures
        split_commas_spec(s).len() >= 1,
    decreases s.len(),
{
    if s.len() != 0 && s[0] != ',' {
        lemma_split_commas_nonempty(s.skip(1));
    }
}

/// Splits `s` at every comma, keeping empty pieces.
pub fn split_commas(s: &str) -> (out: Vec<String>)
    ensures
        out.deep_view() == split_commas_spec(s@),
{
    let n = s.unicode_len();
    let mut out: Vec<String> = Vec::new();
    let mut start: usize = 0;
    let mut i: usize = 0;
    proof {
        lemma_split_commas_nonempty(s@);
        assert(s@.skip(0) =~= s@);
        assert(s@.subrange(0, 0) + split_commas_spec(s@)[0] =~= split_commas_spec(s@)[0]);
        assert(out.deep_view() + seq![split_commas_spec(s@)[0]] + split_commas_spec(s@).skip(1)
            =~= split_commas_spec(s@));
    }
    while i < n
        invariant
            start <= i <= n,
            n == s@.len(),
            split_commas_spec(s@) == out.deep_view() + seq![
                s@.subrange(start as int, i as int) + split_commas_spec(s@.skip(i as int))[0],
            ] + split_commas_spec(s@.skip(i as int)).skip(1),
        decreases n - i,
    {
        let ghost rest = s@.skip(i as int);
        let ghost rest2 = s@.skip(i + 1);
        proof {
            assert(rest.len() > 0);
            assert(rest[0] == s@[i as int]);
            assert(rest.skip(1) =~= rest2);
            lemma_split_commas_nonempty(rest2);
        }
        let c = s.get_char(i);
        if c == ',' {
            let piece = String::from_str(s.substring_char(start, i));
            let ghost before = out.deep_view();
            out.push(piece);
            proof {
                assert(split_commas_spec(rest) == seq![Seq::<char>::empty()] + split_commas_spec(
                    rest2,
                ));
                assert(s@.subrange(start as int, i as int) + split_commas_spec(rest)[0]
                    =~= s@.subrange(start as int, i as int));
                assert(split_commas_spec(rest).skip(1) =~= split_commas_spec(rest2));
                assert(out.deep_view() =~= before.push(s@.subrange(start as int, i as int)));
                assert(s@.subrange(i + 1, i + 1) + split_commas_spec(rest2)[0] =~= split_commas_spec(
                    rest2,
                )[0]);
                assert(before + seq![s@.subrange(start as int, i as int)] + split_commas_spec(rest2)
                    =~= out.deep_view() + seq![
                    s@.subrange(i + 1, i + 1) + split_commas_spec(rest2)[0],
                ] + split_commas_spec(rest2).skip(1));
                assert(before + seq![
                    s@.subrange(start as int, i as int) + split_commas_spec(rest)[0],
                ] + split_commas_spec(rest).skip(1) =~= before + seq![
                    s@.subrange(start as int, i as int),
                ] + split_commas_spec(rest2));
            }
            start = i + 1;
        } else {
            proof {
                let rest0 = split_commas_spec(rest2)[0];
                assert(split_commas_spec(rest) == seq![seq![rest[0]] + rest0] + split_commas_spec(
                    rest2,
                ).skip(1));
                assert(s@.subrange(start as int, i as int) + (seq![s@[i as int]] + rest0)
                    =~= s@.subrange(start as int, i + 1) + rest0);
                assert(out.deep_view() + seq![
                    s@.subrange(start as int, i as int) + split_commas_spec(rest)[0],
                ] + split_commas_spec(rest).skip(1) =~= out.deep_view() + seq![
                    s@.subrange(start as int, i + 1) + rest0,
                ] + split_commas_spec(rest2).skip(1));
            }
        }
        i += 1;
    }
    let piece = String::from_str(s.substring_char(start, n));
    let ghost before = out.deep_view();
    out.push(piece);
    proof {
        let ghost rest = s@.skip(n as int);
        assert(rest =~= Seq::<char>::empty());
        assert(split_commas_spec(rest) == seq![Seq::<char>::empty()]);
        assert(s@.subrange(start as int, n as int) + split_commas_spec(rest)[0] =~= s@.subrange(
            start as int,
            n as int,
        ));
        assert(split_commas_spec(rest).skip(1) =~= Seq::<Seq<char>>::empty());
        assert(out.deep_view() =~= before + seq![
            s@.subrange(start as int, n as int) + split_commas_spec(rest)[0],
        ] + split_commas_spec(rest).skip(1));
    }
    out
}

/// The `has` and `hasnt` tag lists that a sequence of `query` flag tokens
/// denotes: each `-H`/`--has` takes the next token, split at commas; each
/// `-n`/`--hasnt` takes the next token whole; anything else is rejected, as
/// is a flag with no token after it.
pub open spec fn spec_parse_flags(toks: Seq<Seq<char>>) -> Result<
    (Seq<Seq<char>>, Seq<Seq<char>>),
    ErrView,
>
    decreases toks.len(),
{
    if toks.len() == 0 {
        Ok((Seq::empty(), Seq::empty()))
    } else if toks[0] == "-H"@ || toks[0] == "--has"@ {
        if toks.len() == 1 {
            Err(ErrView::MissingValue(toks[0]))
        } else {
            match spec_parse_flags(toks.skip(2)) {
                Ok(r) => Ok((split_commas_spec(toks[1]) + r.0, r.1)),
                Err(e) => Err(e),
            }
        }
    } else if toks[0] == "-n"@ || toks[0] == "--hasnt"@ {
        if toks.len() == 1 {
            Err(ErrView::MissingValue(toks[0]))
        } else {
            match spec_parse_flags(toks.skip(2)) {
                Ok(r) => Ok((r.0, seq![toks[1]] + r.1)),
                Err(e) => Err(e),
            }
        }
    } else {
        Err(ErrView::UnknownOption(toks[0]))
    }
}

/// The command that a tokenized input line denotes, or why it is rejected:
/// `new`, `reset` and `list` take no arguments; `query` takes flag tokens as
/// `spec_parse_flags` reads them; an empty line and an unknown first token
/// are rejected.
pub open spec fn spec_parse(toks: Seq<Seq<char>>) -> Result<CmdView, ErrView> {
    if toks.len() == 0 {
        Err(ErrView::Empty)
    } else if toks[0] == "new"@ {
        if toks.len() == 1 {
            Ok(CmdView::New)
        } else {
            Err(ErrView::UnexpectedArgument(toks[1]))
        }
    } else if toks[0] == "reset"@ {
        if toks.len() == 1 {
            Ok(CmdView::Reset)
        } else {
            Err(ErrView::UnexpectedArgument(toks[1]))
        }
    } else if toks[0] == "list"@ {
        if toks.len() == 1 {
            Ok(CmdView::List)
        } else {
            Err(ErrView::UnexpectedArgument(toks[1]))
        }
    } else if toks[0] == "query"@ {
        match spec_parse_flags(toks.skip(1)) {
            Ok(r) => Ok(CmdView::Query { has: r.0, hasnt: r.1 }),
            Err(e) => Err(e),
        }
    } else {
        Err(ErrView::UnknownCommand(toks[0]))
    }
}

/// Whether token `t` is spelled exactly `lit`.
fn tok_is(t: &String, lit: &str) -> (r: bool)
    ensures
        r == (t@ == lit@),
{
    *t == String::from_str(lit)
}

/// Parses one tokenized input line into a structured command, exactly as
/// `spec_parse` reads it; a rejected line reports which token offended.
pub fn parse_command(tokens: &Vec<String>) -> (r: Result<Command, ParseError>)
    ensures
        match r {
            Ok(cmd) => spec_parse(tokens.deep_view()) == Ok::<CmdView, ErrView>(cmd@),
            Err(e) => spec_parse(tokens.deep_view()) == Err::<CmdView, ErrView>(e@),
        },
{
    let ghost toks = tokens.deep_view();
    if tokens.len() == 0 {
        return Err(ParseError::Empty);
    }
    let t0 = &tokens[0];
    proof {
        assert(toks[0] == t0@);
    }
    if tok_is(t0, "new") {
        if tokens.len() == 1 {
            Ok(Command::New)
        } else {
            Err(ParseError::UnexpectedArgument(tokens[1].clone()))
        }
    } else if tok_is(t0, "reset") {
        if tokens.len() == 1 {
            Ok(Command::Reset)
        } else {
            Err(ParseError::UnexpectedArgument(tokens[1].clone()))
        }
    } else if tok_is(t0, "list") {
        if tokens.len() == 1 {
            Ok(Command::List)
        } else {
            Err(ParseError::UnexpectedArgument(tokens[1].clone()))
        }
    } else if tok_is(t0, "query") {
        let mut has: Vec<String> = Vec::new();
        let mut hasnt: Vec<String> = Vec::new();
        let mut i: usize = 1;
        proof {
            match spec_parse_flags(toks.skip(1)) {
                Ok(r) => {
                    assert(has.deep_view() + r.0 =~= r.0);
                    assert(hasnt.deep_view() + r.1 =~= r.1);
                },
                Err(e) => {},
            }
        }
        while i < tokens.len()
            invariant
                1 <= i <= tokens.len(),
                toks == tokens.deep_view(),
                spec_parse(toks) == match spec_parse_flags(toks.skip(1)) {
                    Ok(r) => Ok::<CmdView, ErrView>(CmdView::Query { has: r.0, hasnt: r.1 }),
                    Err(e) => Err::<CmdView, ErrView>(e),
                },
                spec_parse_flags(toks.skip(1)) == match spec_parse_flags(toks.skip(i as int)) {
                    Ok(r) => Ok::<(Seq<Seq<char>>, Seq<Seq<char>>), ErrView>(
                        (has.deep_view() + r.0, hasnt.deep_view() + r.1),
                    ),
                    Err(e) => Err::<(Seq<Seq<char>>, Seq<Seq<char>>), ErrView>(e),
                },
            decreases tokens.len() - i,
        {
            let ghost rest = toks.skip(i as int);
            proof {
                assert(rest.len() > 0);
                assert(rest[0] == toks[i as int]);
            }
            let t = &tokens[i];
            proof {
                assert(t@ == rest[0]);
            }
            let is_has = tok_is(t, "-H") || tok_is(t, "--has");
            let is_hasnt = !is_has && (tok_is(t, "-n") || tok_is(t, "--hasnt"));
            if is_has || is_hasnt {
                if i + 1 >= tokens.len() {
                    proof {
                        assert(rest.len() == 1);
                        assert(spec_parse_flags(rest) == Err::<
                            (Seq<Seq<char>>, Seq<Seq<char>>),
                            ErrView,
                        >(ErrView::MissingValue(rest[0])));
                    }
                    return Err(ParseError::MissingValue(t.clone()));
                }
                let ghost rest2 = toks.skip(i + 2);
                proof {
                    assert(rest[1] == toks[i + 1]);
                    assert(rest.skip(2) =~= rest2);
                }
                let value = &tokens[i + 1];
                proof {
                    assert(value@ == rest[1]);
                }
                if is_has {
                    let mut pieces = split_commas(value.as_str());
                    let ghost has_before = has.deep_view();
                    let ghost pieces_dv = pieces.deep_view();
                    has.append(&mut pieces);
                    proof {
                        assert(has.deep_view() =~= has_before + pieces_dv);
                        match spec_parse_flags(rest2) {
                            Ok(r) => {
                                assert(spec_parse_flags(rest) == Ok::<
                                    (Seq<Seq<char>>, Seq<Seq<char>>),
                                    ErrView,
                                >((split_commas_spec(rest[1]) + r.0, r.1)));
                                assert(has_before + (split_commas_spec(rest[1]) + r.0)
                                    =~= has.deep_view() + r.0);
                            },
                            Err(e) => {},
                        }
                    }
                } else {
                    let ghost hasnt_before = hasnt.deep_view();
                    hasnt.push(value.clone());
                    proof {
                        assert(hasnt.deep_view() =~= hasnt_before.push(rest[1]));
                        match spec_parse_flags(rest2) {
                            Ok(r) => {
                                assert(spec_parse_flags(rest) == Ok::<
                                    (Seq<Seq<char>>, Seq<Seq<char>>),
                                    ErrView,
                                >((r.0, seq![rest[1]] + r.1)));
                                assert(hasnt_before + (seq![rest[1]] + r.1) =~= hasnt.deep_view()
                                    + r.1);
                            },
                            Err(e) => {},
                        }
                    }
                }
                i += 2;
            } else {
                proof {
                    assert(spec_parse_flags(rest) == Err::<
                        (Seq<Seq<char>>, Seq<Seq<char>>),
                        ErrView,
                    >(ErrView::UnknownOption(rest[0])));
                }
                return Err(ParseError::UnknownOption(t.clone()));
            }
        }
        proof {
            assert(toks.skip(tokens.len() as int) =~= Seq::<Seq<char>>::empty());
            match spec_parse_flags(toks.skip(1)) {
                Ok(r) => {
                    assert(has.deep_view() + Seq::<Seq<char>>::empty() =~= has.deep_view());
                    assert(hasnt.deep_view() + Seq::<Seq<char>>::empty() =~= hasnt.deep_view());
                },
                Err(e) => {
                    assert(false);
                },
            }
        }
        Ok(Command::Query { has, hasnt })
    } else {
        Err(ParseError::UnknownCommand(t0.clone()))
    }
}

} // verus!
