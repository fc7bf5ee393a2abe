use vstd::prelude::*;

use crate::text::blank;

verus! {

/// Which kind of quoted region the scanner is in.
#[derive(Clone, Copy, Debug)]
pub enum Region {
    Bare,
    Single,
    Double,
}

/// Why a command line yields no words.
pub enum Fault {
    EmptyProgram,
    MissingQuote(char),
    InvalidEscape(char),
    UnterminatedEscape,
}

/// The scanner's state after a prefix of the input: the finished words, the
/// word being built (if one is open), the quoted region and whether a
/// backslash inside double quotes waits for its target.
#[verifier::ext_equal]
pub struct Scan {
    pub words: Seq<Seq<char>>,
    pub word: Option<Seq<char>>,
    pub region: Region,
    pub escaping: bool,
}

/// Nothing read yet.
pub open spec fn start() -> Scan {
    Scan { words: seq![], word: None, region: Region::Bare, escaping: false }
}

/// The open word's text, or empty text if none is open.
pub open spec fn opened(word: Option<Seq<char>>) -> Seq<char> {
    match word {
        Some(w) => w,
        None => seq![],
    }
}

/// Opens a word if none is open, and appends `t` to it.
pub open spec fn append(st: Scan, t: Seq<char>) -> Scan {
    Scan { word: Some(opened(st.word) + t), ..st }
}

/// Ends the open word, if any.
pub open spec fn close(st: Scan) -> Scan {
    match st.word {
        Some(w) => Scan { words: st.words.push(w), word: None, ..st },
        None => st,
    }
}

/// One character of input; `Err(c)` is an invalid escape of `c`.
pub open spec fn step(st: Scan, c: char) -> Result<Scan, char> {
    if st.escaping {
        if c == '"' || c == '\\' {
            Ok(Scan { escaping: false, ..append(st, seq![c]) })
        } else {
            Err(c)
        }
    } else {
        match st.region {
            Region::Bare => {
                if blank(c) {
                    Ok(close(st))
                } else if c == '\'' {
                    Ok(Scan { region: Region::Single, ..append(st, seq![]) })
                } else if c == '"' {
                    Ok(Scan { region: Region::Double, ..append(st, seq![]) })
                } else {
                    Ok(append(st, seq![c]))
                }
            },
            Region::Single => {
                if c == '\'' {
                    Ok(Scan { region: Region::Bare, ..st })
                } else {
                    Ok(append(st, seq![c]))
                }
            },
            Region::Double => {
                if c == '\\' {
                    Ok(Scan { escaping: true, ..st })
                } else if c == '"' {
                    Ok(Scan { region: Region::Bare, ..st })
                } else {
                    Ok(append(st, seq![c]))
                }
            },
        }
    }
}

/// The scanner run from `st` over `s`, left to right; it stops at the first
/// invalid escape.
pub open spec fn run(st: Scan, s: Seq<char>) -> Result<Scan, char>
    decreases s.len(),
{
    if s.len() == 0 {
        Ok(st)
    } else {
        match run(st, s.drop_last()) {
            Ok(m) => step(m, s.last()),
            Err(c) => Err(c),
        }
    }
}

/// What the end of input makes of the scanner's state.
pub open spec fn finish(st: Scan) -> Result<Seq<Seq<char>>, Fault> {
    if st.escaping {
        Err(Fault::UnterminatedEscape)
    } else {
        match st.region {
            Region::Single => Err(Fault::MissingQuote('\'')),
            Region::Double => Err(Fault::MissingQuote('"')),
            Region::Bare => {
                let all = close(st).words;
                if all.len() == 0 {
                    Err(Fault::EmptyProgram)
                } else {
                    Ok(all)
                }
            },
        }
    }
}

/// The words of command line `s`, program first, or why there are none.
pub open spec fn parse(s: Seq<char>) -> Result<Seq<Seq<char>>, Fault> {
    match run(start(), s) {
        Ok(st) => finish(st),
        Err(c) => Err(Fault::InvalidEscape(c)),
    }
}

/// Running over `a + b` is running over `a`, then over `b` from where `a` left.
pub proof fn lemma_run_concat(st: Scan, a: Seq<char>, b: Seq<char>)
    ensures
        run(st, a + b) == match run(st, a) {
            Ok(m) => run(m, b),
            Err(c) => Err(c),
        },
    decreases b.len(),
{
    if b.len() == 0 {
        assert(a + b =~= a);
    } else {
        lemma_run_concat(st, a, b.drop_last());
        assert((a + b).drop_last() =~= a + b.drop_last());
    }
}

} // verus!
