//! The interpreter's command layer: a line already split into words is turned
//! into an action — quit, evaluate an expression, or show its tree. Reading
//! the line, splitting it and printing answers stay with the caller.
use crate::eval::Order;
use vstd::prelude::*;

verus! {

/// What one line of input asks the interpreter to do.
#[derive(Debug, PartialEq)]
pub enum ProgramAction {
    Exit,
    Eval(Order, Vec<String>),
    Show(Order, Vec<String>),
}

/// The mathematical shape of a [`ProgramAction`]: the expression words as
/// sequences of characters.
pub enum ProgramActionSpec {
    Exit,
    Eval(Order, Seq<Seq<char>>),
    Show(Order, Seq<Seq<char>>),
}

impl View for ProgramAction {
    type V = ProgramActionSpec;

    open spec fn view(&self) -> ProgramActionSpec {
        match self {
            ProgramAction::Exit => ProgramActionSpec::Exit,
            ProgramAction::Eval(o, ws) => ProgramActionSpec::Eval(*o, ws.deep_view()),
            ProgramAction::Show(o, ws) => ProgramActionSpec::Show(*o, ws.deep_view()),
        }
    }
}

/// Why a command line was rejected.
#[derive(Debug, PartialEq, Eq, Structural, Clone, Copy)]
pub enum ProgramError {
    NotEnoughActionArgs,
    InvalidActionArgument,
    InvalidAction,
}

/// The order a command word names: `pre` or `post`.
pub open spec fn spec_order_token(s: Seq<char>) -> Option<Order> {
    if s == "pre"@ {
        Some(Order::Pre)
    } else if s == "post"@ {
        Some(Order::Post)
    } else {
        None
    }
}

/// What a split command line means. The first word picks the action; `eval`
/// and `mostrar` take an order word and pass every further word through as
/// the expression; `salir` ignores anything after it.
pub open spec fn spec_parse_command(ws: Seq<Seq<char>>) -> Result<ProgramActionSpec, ProgramError> {
    if ws.len() == 0 {
        Err(ProgramError::NotEnoughActionArgs)
    } else if ws[0] == "salir"@ {
        Ok(ProgramActionSpec::Exit)
    } else if ws[0] == "mostrar"@ || ws[0] == "eval"@ {
        if ws.len() < 2 {
            Err(ProgramError::InvalidActionArgument)
        } else {
            match spec_order_token(ws[1]) {
                None => Err(ProgramError::InvalidActionArgument),
                Some(o) => if ws[0] == "mostrar"@ {
                    Ok(ProgramActionSpec::Show(o, ws.skip(2)))
                } else {
                    Ok(ProgramActionSpec::Eval(o, ws.skip(2)))
                },
            }
        }
    } else {
        Err(ProgramError::InvalidAction)
    }
}

/// Character-for-character string comparison.
fn str_eq(a: &str, b: &str) -> (r: bool)
    ensures
        r == (a@ == b@),
{
    let na = a.unicode_len();
    let nb = b.unicode_len();
    if na != nb {
        return false;
    }
    let mut i: usize = 0;
    while i < na
        invariant
            0 <= i <= na,
            na == a@.len(),
            na == b@.len(),
            forall|j: int| 0 <= j < i ==> a@[j] == b@[j],
        decreases na - i,
    {
        if a.get_char(i) != b.get_char(i) {
            return false;
        }
        i = i + 1;
    }
    proof {
        assert(a@ =~= b@);
    }
    true
}

/// The interpreter's state: whether the user has asked to leave.
pub struct Program {
    exit: bool,
}

impl Program {
    /// Whether the program has been asked to stop.
    pub closed spec fn spec_exit(&self) -> bool {
        self.exit
    }

    /// Creates a new program instance ready to run.
    pub fn new() -> (p: Program)
        ensures
            !p.spec_exit(),
    {
        Program { exit: false }
    }

    /// Checks if the program should close.
    pub fn exit(&self) -> (b: bool)
        ensures
            b == self.spec_exit(),
    {
        self.exit
    }

    /// Records that the user asked to leave.
    pub fn request_exit(&mut self)
        ensures
            final (self).spec_exit(),
    {
        self.exit = true;
    }

    /// Parses a command line, already lowercased and split into words, into
    /// an action, or an error when that is not possible.
    pub fn parse(words: Vec<String>) -> (r: Result<ProgramAction, ProgramError>)
        ensures
            match r {
                Ok(a) => spec_parse_command(words.deep_view()) == Ok::<
                    ProgramActionSpec,
                    ProgramError,
                >(a@),
                Err(e) => spec_parse_command(words.deep_view()) == Err::<
                    ProgramActionSpec,
                    ProgramError,
                >(e),
            },
    {
        let ghost ws = words.deep_view();
        if words.len() == 0 {
            return Err(ProgramError::NotEnoughActionArgs);
        }
        proof {
            assert(ws[0] == words[0]@);
        }
        if str_eq(words[0].as_str(), "salir") {
            Ok(ProgramAction::Exit)
        } else if str_eq(words[0].as_str(), "mostrar") || str_eq(words[0].as_str(), "eval") {
            if words.len() < 2 {
                return Err(ProgramError::InvalidActionArgument);
            }
            proof {
                assert(ws[1] == words[1]@);
            }
            let order = match Program::parse_order(Some(words[1].as_str())) {
                None => {
                    return Err(ProgramError::InvalidActionArgument);
                },
                Some(o) => o,
            };
            let mut rest: Vec<String> = Vec::new();
            let mut i: usize = 2;
            while i < words.len()
                invariant
                    2 <= i <= words.len(),
                    ws == words.deep_view(),
                    rest.deep_view() =~~= ws.subrange(2, i as int),
                decreases words.len() - i,
            {
                let ghost rest0 = rest.deep_view();
                let w = words[i].clone();
                proof {
                    assert(w@ == ws[i as int]);
                }
                rest.push(w);
                proof {
                    assert(rest.deep_view() =~= rest0.push(ws[i as int]));
                    assert(rest0.push(ws[i as int]) =~= ws.subrange(2, i + 1));
                }
                i = i + 1;
            }
            proof {
                assert(rest.deep_view() =~~= ws.skip(2));
            }
            if str_eq(words[0].as_str(), "mostrar") {
                Ok(ProgramAction::Show(order, rest))
            } else {
                Ok(ProgramAction::Eval(order, rest))
            }
        } else {
            Err(ProgramError::InvalidAction)
        }
    }

    /// Parses a possible option into an order.
    pub fn parse_order(arg: Option<&str>) -> (r: Option<Order>)
        ensures
            r == match arg {
                Some(s) => spec_order_token(s@),
                None => None::<Order>,
            },
    {
        let order = match arg {
            None => {
                return None;
            },
            Some(s) => s,
        };
        if str_eq(order, "pre") {
            Some(Order::Pre)
        } else if str_eq(order, "post") {
            Some(Order::Post)
        } else {
            None
        }
    }
}

} // verus!

