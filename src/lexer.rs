use vstd::prelude::*;

use crate::text::push_char;
use crate::token::{token_models, Error, ErrorModel, Token, TokenModel};

verus! {

/// Whether a character has the Unicode White_Space property.
pub uninterp spec fn white_space(c: char) -> bool;

/// Relies on `char::is_whitespace`: true exactly for the characters with the
/// Unicode White_Space property.
#[verifier::external_body]
fn is_space(c: char) -> (r: bool)
    ensures
        r == white_space(c),
{
    c.is_whitespace()
}

/// The four one-character delimiters.
pub open spec fn is_delimiter(c: char) -> bool {
    c == '(' || c == ')' || c == '!' || c == ','
}

pub open spec fn is_digit(c: char) -> bool {
    '0' <= c && c <= '9'
}

pub open spec fn digit_value(c: char) -> nat {
    (c as nat - '0' as nat) as nat
}

/// The value of a string of decimal digits; 0 for the empty string.
pub open spec fn decimal(d: Seq<char>) -> nat
    decreases d.len(),
{
    if d.len() == 0 {
        0
    } else {
        decimal(d.drop_last()) * 10 + digit_value(d.last())
    }
}

/// Whether a character continues an identifier, given whether it is white space.
pub open spec fn is_word_char(c: char, space: bool) -> bool {
    !is_delimiter(c) && c != '.' && !space
}

/// Where the run of decimal digits of `s` that starts at `i` ends.
pub open spec fn digits_end(s: Seq<char>, i: int) -> int
    decreases s.len() - i,
{
    if i < 0 || i >= s.len() || !is_digit(s[i]) {
        i
    } else {
        digits_end(s, i + 1)
    }
}

/// Where the run of identifier characters of `s` that starts at `i` ends.
pub open spec fn word_end(s: Seq<char>, sp: Seq<bool>, i: int) -> int
    decreases s.len() - i,
{
    if i < 0 || i >= s.len() || !is_word_char(s[i], sp[i]) {
        i
    } else {
        word_end(s, sp, i + 1)
    }
}

pub open spec fn delimiter_token(c: char) -> TokenModel {
    if c == '(' {
        TokenModel::LeftParen
    } else if c == ')' {
        TokenModel::RightParen
    } else if c == '!' {
        TokenModel::Not
    } else {
        TokenModel::Comma
    }
}

/// `t` in front of the tokens of `r`, or the error of `r`.
pub open spec fn prepend(t: TokenModel, r: Result<Seq<TokenModel>, ErrorModel>) -> Result<
    Seq<TokenModel>,
    ErrorModel,
> {
    match r {
        Ok(ts) => Ok(seq![t] + ts),
        Err(e) => Err(e),
    }
}

proof fn lemma_digits_end(s: Seq<char>, i: int)
    requires
        0 <= i <= s.len(),
    ensures
        i <= digits_end(s, i) <= s.len(),
        forall|k: int| i <= k < digits_end(s, i) ==> is_digit(#[trigger] s[k]),
        digits_end(s, i) < s.len() ==> !is_digit(s[digits_end(s, i)]),
    decreases s.len() - i,
{
    if i < s.len() && is_digit(s[i]) {
        lemma_digits_end(s, i + 1);
    }
}

proof fn lemma_word_end(s: Seq<char>, sp: Seq<bool>, i: int)
    requires
        0 <= i <= s.len(),
    ensures
        i <= word_end(s, sp, i) <= s.len(),
        forall|k: int| i <= k < word_end(s, sp, i) ==> is_word_char(#[trigger] s[k], sp[k]),
        word_end(s, sp, i) < s.len() ==> !is_word_char(s[word_end(s, sp, i)], sp[word_end(s, sp, i)]),
    decreases s.len() - i,
{
    if i < s.len() && is_word_char(s[i], sp[i]) {
        lemma_word_end(s, sp, i + 1);
    }
}

/// The tokens of `s` from position `i` on, where `sp[k]` tells whether `s[k]`
/// is white space.
pub open spec fn lex_from(s: Seq<char>, sp: Seq<bool>, i: int) -> Result<
    Seq<TokenModel>,
    ErrorModel,
>
    decreases s.len() - i,
    via lex_from_decreases
{
    if i < 0 || i >= s.len() {
        Ok(seq![])
    } else if is_delimiter(s[i]) {
        prepend(delimiter_token(s[i]), lex_from(s, sp, i + 1))
    } else if s[i] == '.' {
        let e = digits_end(s, i + 1);
        let d = s.subrange(i + 1, e);
        if d.len() == 0 || decimal(d) > usize::MAX {
            Err(ErrorModel::InvalidNumber(d))
        } else {
            prepend(TokenModel::Input(decimal(d)), lex_from(s, sp, e))
        }
    } else if sp[i] {
        lex_from(s, sp, i + 1)
    } else {
        let e = word_end(s, sp, i);
        prepend(TokenModel::Identifier(s.subrange(i, e)), lex_from(s, sp, e))
    }
}

#[via_fn]
proof fn lex_from_decreases(s: Seq<char>, sp: Seq<bool>, i: int) {
    if 0 <= i < s.len() {
        lemma_digits_end(s, i + 1);
        lemma_word_end(s, sp, i);
        if is_word_char(s[i], sp[i]) {
            assert(word_end(s, sp, i) == word_end(s, sp, i + 1));
            lemma_word_end(s, sp, i + 1);
        }
    }
}

/// The white-space marks of the characters of `s`.
pub open spec fn space_marks(s: Seq<char>) -> Seq<bool> {
    s.map_values(|c: char| white_space(c))
}

/// The tokens of a line of source text, or the error that rejects it.
pub open spec fn lex(s: Seq<char>) -> Result<Seq<TokenModel>, ErrorModel> {
    lex_from(s, space_marks(s), 0)
}

/// The model of a tokenizer result.
pub open spec fn lexed(r: Result<Vec<Token>, Error>) -> Result<Seq<TokenModel>, ErrorModel> {
    match r {
        Ok(ts) => Ok(token_models(ts@)),
        Err(e) => Err(e@),
    }
}

/// `ts` in front of the tokens of `r`, or the error of `r`.
pub open spec fn then(ts: Seq<TokenModel>, r: Result<Seq<TokenModel>, ErrorModel>) -> Result<
    Seq<TokenModel>,
    ErrorModel,
> {
    match r {
        Ok(rest) => Ok(ts + rest),
        Err(e) => Err(e),
    }
}

proof fn lemma_then_prepend(ts: Seq<TokenModel>, t: TokenModel, r: Result<Seq<TokenModel>, ErrorModel>)
    ensures
        then(ts, prepend(t, r)) == then(ts.push(t), r),
{
    if let Ok(rest) = r {
        assert(ts + (seq![t] + rest) =~= ts.push(t) + rest);
    }
}

/// The characters `chars[from..to]` as a string.
fn collect_string(chars: &[char], from: usize, to: usize) -> (r: String)
    requires
        from <= to <= chars@.len(),
    ensures
        r@ == chars@.subrange(from as int, to as int),
{
    let mut out = String::new();
    let mut i = from;
    while i < to
        invariant
            from <= i <= to <= chars@.len(),
            out@ == chars@.subrange(from as int, i as int),
        decreases to - i,
    {
        push_char(&mut out, chars[i]);
        assert(chars@.subrange(from as int, i + 1) =~= chars@.subrange(from as int, i as int).push(chars@[i as int]));
        i += 1;
    }
    out
}

/// Reads the run of decimal digits that starts at `start`: returns where it
/// ends, and its value where the run is not empty and the value fits a `usize`.
fn parse_number(chars: &[char], start: usize) -> (r: (usize, Option<usize>))
    requires
        start <= chars@.len(),
    ensures
        r.0 == digits_end(chars@, start as int),
        ({
            let d = chars@.subrange(start as int, r.0 as int);
            match r.1 {
                Some(v) => d.len() > 0 && v == decimal(d),
                None => d.len() == 0 || decimal(d) > usize::MAX,
            }
        }),
{
    let mut i = start;
    let mut value: usize = 0;
    let mut overflow = false;
    proof {
        lemma_digits_end(chars@, start as int);
    }
    while i < chars.len() && '0' <= chars[i] && chars[i] <= '9'
        invariant
            start <= i <= chars@.len(),
            digits_end(chars@, start as int) == digits_end(chars@, i as int),
            !overflow ==> value == decimal(chars@.subrange(start as int, i as int)),
            overflow ==> decimal(chars@.subrange(start as int, i as int)) > usize::MAX,
        decreases chars@.len() - i,
    {
        let c = chars[i];
        let d = (c as u32 - '0' as u32) as usize;
        let ghost old_value = decimal(chars@.subrange(start as int, i as int));
        assert(chars@.subrange(start as int, i + 1).drop_last() =~= chars@.subrange(start as int, i as int));
        assert(decimal(chars@.subrange(start as int, i + 1)) == old_value * 10 + d);
        if !overflow {
            if value > (usize::MAX - d) / 10 {
                overflow = true;
                assert(value * 10 + d > usize::MAX) by (nonlinear_arith)
                    requires value > (usize::MAX - d) / 10, d <= 9;
            } else {
                assert(value * 10 + d <= usize::MAX) by (nonlinear_arith)
                    requires value <= (usize::MAX - d) / 10, d <= 9;
                value = value * 10 + d;
            }
        }
        i += 1;
    }
    if overflow || i == start {
        (i, None)
    } else {
        (i, Some(value))
    }
}

/// Splits a line into tokens, where `spaces[k]` tells whether `chars[k]` is
/// white space.
pub fn tokenize_marked(chars: &[char], spaces: &[bool]) -> (r: Result<Vec<Token>, Error>)
    requires
        chars@.len() == spaces@.len(),
    ensures
        lexed(r) == lex_from(chars@, spaces@, 0),
{
    let ghost s = chars@;
    let ghost sp = spaces@;
    let mut tokens: Vec<Token> = Vec::new();
    let mut i: usize = 0;
    assert(token_models(tokens@) =~= seq![]);
    assert(seq![] + lex_from(s, sp, 0)->Ok_0 =~= lex_from(s, sp, 0)->Ok_0);
    while i < chars.len()
        invariant
            s == chars@,
            sp == spaces@,
            s.len() == sp.len(),
            i <= s.len(),
            lex_from(s, sp, 0) == then(token_models(tokens@), lex_from(s, sp, i as int)),
        decreases s.len() - i,
    {
        let c = chars[i];
        if c == '(' || c == ')' || c == '!' || c == ',' {
            let t = if c == '(' {
                Token::LeftParen
            } else if c == ')' {
                Token::RightParen
            } else if c == '!' {
                Token::Not
            } else {
                Token::Comma
            };
            proof {
                lemma_then_prepend(token_models(tokens@), t@, lex_from(s, sp, i + 1));
                assert(token_models(tokens@.push(t)) =~= token_models(tokens@).push(t@));
            }
            tokens.push(t);
            i += 1;
        } else if c == '.' {
            let (end, value) = parse_number(chars, i + 1);
            proof {
                lemma_digits_end(s, i + 1);
            }
            match value {
                None => {
                    let text = collect_string(chars, i + 1, end);
                    return Err(Error::InvalidNumber { text });
                },
                Some(v) => {
                    let t = Token::Input { index: v };
                    proof {
                        lemma_then_prepend(token_models(tokens@), t@, lex_from(s, sp, end as int));
                        assert(token_models(tokens@.push(t)) =~= token_models(tokens@).push(t@));
                    }
                    tokens.push(t);
                    i = end;
                },
            }
        } else if spaces[i] {
            i += 1;
        } else {
            let mut end = i;
            proof {
                lemma_word_end(s, sp, i as int);
            }
            while end < chars.len() && chars[end] != '(' && chars[end] != ')' && chars[end] != '!'
                && chars[end] != ',' && chars[end] != '.' && !spaces[end]
                invariant
                    s == chars@,
                    sp == spaces@,
                    s.len() == sp.len(),
                    i <= end <= s.len(),
                    word_end(s, sp, i as int) == word_end(s, sp, end as int),
                decreases s.len() - end,
            {
                end += 1;
            }
            let t = Token::Identifier { value: collect_string(chars, i, end) };
            proof {
                lemma_then_prepend(token_models(tokens@), t@, lex_from(s, sp, end as int));
                assert(token_models(tokens@.push(t)) =~= token_models(tokens@).push(t@));
            }
            tokens.push(t);
            i = end;
        }
    }
    assert(token_models(tokens@) + seq![] =~= token_models(tokens@));
    Ok(tokens)
}

/// The characters of a string, in order.
pub(crate) fn chars_of(code: &str) -> (r: Vec<char>)
    ensures
        r@ == code@,
{
    let mut out: Vec<char> = Vec::new();
    for c in it: code.chars()
        invariant
            out@ == it.seq().take(it.index() as int),
    {
        out.push(c);
    }
    out
}

/// Splits one line of source text into tokens.
pub fn tokenize(code: &str) -> (r: Result<Vec<Token>, Error>)
    ensures
        lexed(r) == lex(code@),
{
    let chars = chars_of(code);
    let mut spaces: Vec<bool> = Vec::new();
    let mut i: usize = 0;
    while i < chars.len()
        invariant
            i <= chars@.len(),
            spaces@ == space_marks(chars@.take(i as int)),
        decreases chars@.len() - i,
    {
        let b = is_space(chars[i]);
        spaces.push(b);
        assert(space_marks(chars@.take(i + 1)) =~= space_marks(chars@.take(i as int)).push(b));
        i += 1;
    }
    assert(chars@.take(i as int) =~= chars@);
    tokenize_marked(chars.as_slice(), spaces.as_slice())
}

/// A dot followed by a run of decimal digits whose value fits a `usize` is
/// read as exactly one input token carrying that value.
pub proof fn lemma_dot_digits_one_input(d: Seq<char>)
    requires
        d.len() > 0,
        forall|k: int| 0 <= k < d.len() ==> is_digit(#[trigger] d[k]),
        decimal(d) <= usize::MAX,
    ensures
        lex(seq!['.'] + d) == Ok::<Seq<TokenModel>, ErrorModel>(seq![TokenModel::Input(decimal(d))]),
{
    let s = seq!['.'] + d;
    let sp = space_marks(s);
    lemma_digits_end(s, 1);
    let e = digits_end(s, 1);
    if e < s.len() {
        assert(s[e] == d[e - 1]);
    }
    assert(e == s.len());
    assert(s.subrange(1, e) =~= d);
    assert(lex_from(s, sp, e) == Ok::<Seq<TokenModel>, ErrorModel>(seq![]));
    assert(seq![TokenModel::Input(decimal(d))] + seq![] =~= seq![TokenModel::Input(decimal(d))]);
}

} // verus!
