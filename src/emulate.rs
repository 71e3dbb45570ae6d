use vstd::prelude::*;
use vstd::string::StringExecFns;

use crate::gate::{Gate, GateModel};
use crate::lexer::{lex, tokenize};
use crate::parser::{inputs_fit, parse, parse_model};
use crate::text::{digits_of, push_decimal};
use crate::token::{token_models, Error, ErrorModel, Token};

verus! {

/// The most inputs a circuit may have to be emulated.
pub const MAX_INPUTS: usize = 16;

/// Model of why a line cannot be handed to the emulator.
pub enum LineErrorModel {
    Parsing(ErrorModel),
    TooManyInputs,
}

/// Why a line cannot be handed to the emulator.
#[derive(Debug)]
pub enum LineError {
    Parsing(Error),
    TooManyInputs,
}

impl View for LineError {
    type V = LineErrorModel;

    open spec fn view(&self) -> LineErrorModel {
        match self {
            LineError::Parsing(e) => LineErrorModel::Parsing(e@),
            LineError::TooManyInputs => LineErrorModel::TooManyInputs,
        }
    }
}

/// The input count and gate tree of one line, or why it cannot be emulated.
pub open spec fn line_outcome(line: Seq<char>) -> Result<(nat, GateModel), LineErrorModel> {
    match lex(line) {
        Err(e) => Err(LineErrorModel::Parsing(e)),
        Ok(toks) => {
            if !inputs_fit(toks) {
                Err(LineErrorModel::TooManyInputs)
            } else {
                match parse_model(toks) {
                    Err(e) => Err(LineErrorModel::Parsing(e)),
                    Ok((n, g)) => {
                        if n > MAX_INPUTS {
                            Err(LineErrorModel::TooManyInputs)
                        } else {
                            Ok((n, g))
                        }
                    },
                }
            }
        },
    }
}

/// The model of a prepared line.
pub open spec fn prepared(r: Result<(usize, Gate), LineError>) -> Result<
    (nat, GateModel),
    LineErrorModel,
> {
    match r {
        Ok((n, g)) => Ok((n as nat, g@)),
        Err(e) => Err(e@),
    }
}

/// Whether every input index of the tokens is below `usize::MAX`.
fn all_inputs_fit(tokens: &[Token]) -> (r: bool)
    ensures
        r == inputs_fit(token_models(tokens@)),
{
    let ghost toks = token_models(tokens@);
    let mut i: usize = 0;
    while i < tokens.len()
        invariant
            i <= tokens@.len(),
            toks == token_models(tokens@),
            forall|k: int| 0 <= k < i ==> (#[trigger] toks[k] is Input ==> toks[k]->Input_0 < usize::MAX),
        decreases tokens@.len() - i,
    {
        assert(toks[i as int] == tokens@[i as int]@);
        match &tokens[i] {
            Token::Input { index } => {
                if *index == usize::MAX {
                    return false;
                }
            },
            _ => {},
        }
        i += 1;
    }
    true
}

/// Reads one line of circuit source for the emulator: its input count and
/// gate tree, or the parsing error, or that it has too many inputs.
pub fn prepare_line(line: &str) -> (r: Result<(usize, Gate), LineError>)
    ensures
        prepared(r) == line_outcome(line@),
{
    let tokens = match tokenize(line) {
        Ok(tokens) => tokens,
        Err(e) => {
            return Err(LineError::Parsing(e));
        },
    };
    assert(lex(line@) == Ok::<Seq<crate::token::TokenModel>, ErrorModel>(token_models(tokens@)));
    if !all_inputs_fit(tokens.as_slice()) {
        return Err(LineError::TooManyInputs);
    }
    match parse(tokens.as_slice()) {
        Ok((n, g)) => {
            if n > MAX_INPUTS {
                Err(LineError::TooManyInputs)
            } else {
                Ok((n, g))
            }
        },
        Err(e) => Err(LineError::Parsing(e)),
    }
}

/// Reading the same source text twice gives the same tokens, and parsing them
/// gives the same input count and gate tree.
pub proof fn lemma_reparse_identical(a: Seq<char>, b: Seq<char>)
    requires
        a == b,
    ensures
        lex(a) == lex(b),
        lex(a) is Ok ==> parse_model(lex(a)->Ok_0) == parse_model(lex(b)->Ok_0),
        line_outcome(a) == line_outcome(b),
{
}

/// The label of line `index`: its number in brackets.
pub open spec fn line_label(index: nat) -> Seq<char> {
    "["@ + digits_of(index) + "]"@
}

/// The title of the failure of line `index`, at emulation or at parsing.
pub open spec fn failure_title(index: nat, at_emulation: bool) -> Seq<char> {
    line_label(index) + if at_emulation {
        " Emulation error"@
    } else {
        " Parsing error"@
    }
}

/// The part of the response that shows what line `index` emulated to.
pub open spec fn result_block(index: nat, emulation: Seq<char>) -> Seq<char> {
    line_label(index) + ":\n```\n"@ + emulation + "```\n"@
}

/// The title of the failure of line `index`.
pub fn line_failure_title(index: usize, at_emulation: bool) -> (r: String)
    ensures
        r@ == failure_title(index as nat, at_emulation),
{
    let mut s = String::from_str("[");
    push_decimal(&mut s, index);
    s.append("]");
    if at_emulation {
        s.append(" Emulation error");
    } else {
        s.append(" Parsing error");
    }
    s
}

/// Appends to `response` what line `index` emulated to.
pub fn push_result_block(response: &mut String, index: usize, emulation: &str)
    ensures
        final(response)@ == old(response)@ + result_block(index as nat, emulation@),
{
    response.append("[");
    push_decimal(response, index);
    response.append("]");
    response.append(":\n```\n");
    response.append(emulation);
    response.append("```\n");
    assert(response@ =~= old(response)@ + result_block(index as nat, emulation@));
}

} // verus!
