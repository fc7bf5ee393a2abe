use vstd::prelude::*;

use crate::error::Error;
use crate::grammar::{lemma_run_concat, parse, run, start, step, Region, Scan};
use crate::text::{is_blank, push_char};

verus! {

/// The text of each string, in order.
pub open spec fn texts(v: Seq<String>) -> Seq<Seq<char>> {
    v.map_values(|w: String| w@)
}

/// The scanner state that the tokenizer's variables stand for.
pub open spec fn scan_of(
    words: Seq<String>,
    word: String,
    open: bool,
    region: Region,
    escaping: bool,
) -> Scan {
    Scan {
        words: texts(words),
        word: if open { Some(word@) } else { None },
        region,
        escaping,
    }
}

/// Splits command line `s` into its program and arguments.
fn process_cmd_str(s: &str) -> (r: Result<(String, Vec<String>), Error>)
    ensures
        match parse(s@) {
            Ok(words) => r is Ok && seq![r->Ok_0.0@] + texts(r->Ok_0.1@) == words,
            Err(f) => r is Err && r->Err_0.reports(s@, f),
        },
{
    let mut words: Vec<String> = Vec::new();
    let mut word = String::new();
    let mut open = false;
    let mut region = Region::Bare;
    let mut escaping = false;
    proof {
        assert(texts(words@) =~= seq![]);
        assert(s@.take(0) =~= seq![]);
    }
    for c in it: s.chars()
        invariant
            it.seq() == s@,
            run(start(), s@.take(it.index() as int)) == Ok::<Scan, char>(
                scan_of(words@, word, open, region, escaping),
            ),
            escaping ==> open,
            region !is Bare ==> open,
            !open ==> word@.len() == 0,
    {
        let ghost pre = scan_of(words@, word, open, region, escaping);
        let ghost i = it.index() as int;
        proof {
            assert(s@.take(i + 1).drop_last() =~= s@.take(i));
            assert(s@.take(i + 1).last() == c);
        }
        if escaping {
            if c != '"' && c != '\\' {
                proof {
                    lemma_run_concat(start(), s@.take(i + 1), s@.skip(i + 1));
                    assert(s@.take(i + 1) + s@.skip(i + 1) =~= s@);
                }
                return Err(Error::InvalidEscapeSequence(s.to_string(), c));
            }
            push_char(&mut word, c);
            escaping = false;
        } else {
            match region {
                Region::Bare => {
                    if is_blank(c) {
                        if open {
                            let ghost prev = words@;
                            let ghost done = word@;
                            words.push(word);
                            word = String::new();
                            open = false;
                            proof {
                                assert(texts(words@) =~= texts(prev).push(done));
                            }
                        }
                    } else if c == '\'' {
                        region = Region::Single;
                        open = true;
                    } else if c == '"' {
                        region = Region::Double;
                        open = true;
                    } else {
                        push_char(&mut word, c);
                        open = true;
                    }
                },
                Region::Single => {
                    if c == '\'' {
                        region = Region::Bare;
                    } else {
                        push_char(&mut word, c);
                    }
                },
                Region::Double => {
                    if c == '\\' {
                        escaping = true;
                    } else if c == '"' {
                        region = Region::Bare;
                    } else {
                        push_char(&mut word, c);
                    }
                },
            }
        }
        proof {
            assert(step(pre, c)->Ok_0 =~= scan_of(words@, word, open, region, escaping));
        }
    }
    proof {
        assert(s@.take(s@.len() as int) =~= s@);
    }
    if escaping {
        return Err(Error::UnterminatedEscapeSequence(s.to_string()));
    }
    match region {
        Region::Single => {
            return Err(Error::MissingQuote(s.to_string(), '\''));
        },
        Region::Double => {
            return Err(Error::MissingQuote(s.to_string(), '"'));
        },
        Region::Bare => {},
    }
    if open {
        let ghost prev = words@;
        let ghost done = word@;
        words.push(word);
        proof {
            assert(texts(words@) =~= texts(prev).push(done));
        }
    }
    if words.len() == 0 {
        return Err(Error::EmptyProgram);
    }
    let ghost all = words@;
    let program = words.remove(0);
    proof {
        assert(seq![program@] + texts(words@) =~= texts(all));
    }
    Ok((program, words))
}

/// A program and its arguments, split from a command line.
#[derive(Debug)]
pub struct Command {
    program: String,
    args: Vec<String>,
}

impl View for Command {
    type V = Seq<Seq<char>>;

    /// The program followed by the arguments.
    closed spec fn view(&self) -> Seq<Seq<char>> {
        seq![self.program@] + texts(self.args@)
    }
}

impl Command {
    /// Splits `command` into words; the first is the program.
    pub fn new(command: &str) -> (r: Result<Self, Error>)
        ensures
            match parse(command@) {
                Ok(words) => r is Ok && r->Ok_0@ == words,
                Err(f) => r is Err && r->Err_0.reports(command@, f),
            },
    {
        let (program, args) = process_cmd_str(command)?;
        Ok(Self { program, args })
    }

    /// The program to run: the first word.
    pub fn program(&self) -> (r: &str)
        ensures
            r@ == self@[0],
    {
        self.program.as_str()
    }

    /// The arguments: the words after the first, in order.
    pub fn args(&self) -> (r: &[String])
        ensures
            texts(r@) == self@.skip(1),
    {
        proof {
            assert(self@.skip(1) =~= texts(self.args@));
        }
        self.args.as_slice()
    }
}

/// How a finished process ended and what it wrote.
pub struct Output {
    pub code: i32,
    pub stdout: String,
    pub stderr: String,
}

} // verus!
