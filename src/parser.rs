use vstd::prelude::*;

use crate::gate::{
    arity, arity_prefix, gate_models, gate_wf, gates_wf, inverted_if, lemma_arity_prefix_push,
    lemma_gate_models_push, lemma_gates_wf_push, lemma_view_and_or, max_nat, Gate, GateModel,
};
use crate::token::{token_models, Error, ErrorModel, Token, TokenModel};

verus! {

/// Model of the kind of a parser group: the whole line, or an open call.
pub enum GroupKind {
    Root,
    Call { name: Seq<char>, inverted: bool },
}

/// Model of a parser group: its kind and the operands collected so far.
pub struct GroupModel {
    pub kind: GroupKind,
    pub operands: Seq<GateModel>,
}

/// Model of the parser between two tokens.
pub struct ParseState {
    pub stack: Seq<GroupModel>,
    pub inverted: bool,
    pub expect_operand: bool,
    pub max_input: nat,
}

pub open spec fn and_name() -> Seq<char> {
    seq!['a', 'n', 'd']
}

pub open spec fn or_name() -> Seq<char> {
    seq!['o', 'r']
}

/// The parser before the first token: the root group alone, expecting an operand.
pub open spec fn initial_state() -> ParseState {
    ParseState {
        stack: seq![GroupModel { kind: GroupKind::Root, operands: seq![] }],
        inverted: false,
        expect_operand: true,
        max_input: 0,
    }
}

/// `stack` with `g` added to the operands of its top group.
pub open spec fn with_operand(stack: Seq<GroupModel>, g: GateModel) -> Seq<GroupModel> {
    let top = stack.last();
    stack.update(
        stack.len() - 1,
        GroupModel { kind: top.kind, operands: top.operands.push(g) },
    )
}

/// The input count after reading input `index`.
pub open spec fn count_after(max_input: nat, index: nat) -> nat {
    if index >= max_input {
        index + 1
    } else {
        max_input
    }
}

/// The outcome once no token is left.
pub open spec fn finish(st: ParseState) -> Result<(nat, GateModel), ErrorModel> {
    if st.stack.len() != 1 {
        Err(ErrorModel::InvalidParentheses)
    } else if st.stack[0].operands.len() == 0 {
        Err(ErrorModel::EmptyExpression)
    } else {
        Ok((st.max_input, st.stack[0].operands.last()))
    }
}

/// The outcome of parsing `toks` from position `i` on, in state `st`.
pub open spec fn run(toks: Seq<TokenModel>, i: int, st: ParseState) -> Result<
    (nat, GateModel),
    ErrorModel,
>
    decreases toks.len() - i,
{
    if i < 0 || i >= toks.len() {
        finish(st)
    } else {
        match toks[i] {
            TokenModel::LeftParen => Err(ErrorModel::UnexpectedToken(TokenModel::LeftParen)),
            TokenModel::RightParen => {
                if st.expect_operand || st.stack.len() <= 1 {
                    Err(ErrorModel::UnexpectedRightParen)
                } else {
                    match st.stack.last().kind {
                        GroupKind::Call { name, inverted } => {
                            if name == and_name() || name == or_name() {
                                let ops = st.stack.last().operands;
                                let node = if name == and_name() {
                                    GateModel::And(ops)
                                } else {
                                    GateModel::Or(ops)
                                };
                                let stack = with_operand(
                                    st.stack.drop_last(),
                                    inverted_if(inverted, node),
                                );
                                if stack.len() == 1 && i + 1 < toks.len() {
                                    Err(ErrorModel::UnexpectedTokensAfterExpr)
                                } else {
                                    run(
                                        toks,
                                        i + 1,
                                        ParseState {
                                            stack,
                                            inverted: st.inverted,
                                            expect_operand: st.expect_operand,
                                            max_input: st.max_input,
                                        },
                                    )
                                }
                            } else {
                                Err(ErrorModel::UnknownFunction(name))
                            }
                        },
                        GroupKind::Root => Err(ErrorModel::UnexpectedRightParen),
                    }
                }
            },
            TokenModel::Not => run(
                toks,
                i + 1,
                ParseState {
                    stack: st.stack,
                    inverted: !st.inverted,
                    expect_operand: st.expect_operand,
                    max_input: st.max_input,
                },
            ),
            TokenModel::Comma => {
                if st.stack.len() <= 1 || st.expect_operand {
                    Err(ErrorModel::UnexpectedComma)
                } else {
                    run(
                        toks,
                        i + 1,
                        ParseState {
                            stack: st.stack,
                            inverted: st.inverted,
                            expect_operand: true,
                            max_input: st.max_input,
                        },
                    )
                }
            },
            TokenModel::Input(index) => {
                if !st.expect_operand {
                    Err(ErrorModel::UnexpectedToken(TokenModel::Input(index)))
                } else {
                    let node = inverted_if(st.inverted, GateModel::Input(index));
                    let max_input = count_after(st.max_input, index);
                    if st.stack.len() <= 1 {
                        if i + 1 < toks.len() {
                            Err(ErrorModel::UnexpectedTokensAfterExpr)
                        } else {
                            finish(
                                ParseState {
                                    stack: with_operand(st.stack, node),
                                    inverted: st.inverted,
                                    expect_operand: false,
                                    max_input,
                                },
                            )
                        }
                    } else {
                        run(
                            toks,
                            i + 1,
                            ParseState {
                                stack: with_operand(st.stack, node),
                                inverted: false,
                                expect_operand: false,
                                max_input,
                            },
                        )
                    }
                }
            },
            TokenModel::Identifier(name) => {
                if !st.expect_operand {
                    Err(ErrorModel::UnexpectedToken(TokenModel::Identifier(name)))
                } else if i + 1 >= toks.len() {
                    Err(ErrorModel::UnexpectedEndOfSource)
                } else if toks[i + 1] != TokenModel::LeftParen {
                    Err(ErrorModel::UnexpectedToken(TokenModel::Identifier(name)))
                } else {
                    let group = GroupModel {
                        kind: GroupKind::Call { name, inverted: st.inverted },
                        operands: seq![],
                    };
                    run(
                        toks,
                        i + 2,
                        ParseState {
                            stack: st.stack.push(group),
                            inverted: false,
                            expect_operand: true,
                            max_input: st.max_input,
                        },
                    )
                }
            },
        }
    }
}

/// The input count and gate tree of a token sequence, or the error that rejects it.
pub open spec fn parse_model(toks: Seq<TokenModel>) -> Result<(nat, GateModel), ErrorModel> {
    run(toks, 0, initial_state())
}

/// Every input index is below `usize::MAX`, so that the input count fits a `usize`.
pub open spec fn inputs_fit(toks: Seq<TokenModel>) -> bool {
    forall|k: int|
        0 <= k < toks.len() ==> (#[trigger] toks[k] is Input ==> toks[k]->Input_0 < usize::MAX)
}

/// The model of a parser result.
pub open spec fn parsed(r: Result<(usize, Gate), Error>) -> Result<(nat, GateModel), ErrorModel> {
    match r {
        Ok((n, g)) => Ok((n as nat, g@)),
        Err(e) => Err(e@),
    }
}

enum GroupType {
    Root,
    Call { name: String, inverted: bool },
}

struct Group {
    kind: GroupType,
    operands: Vec<Gate>,
}

impl View for Group {
    type V = GroupModel;

    closed spec fn view(&self) -> GroupModel {
        GroupModel {
            kind: match self.kind {
                GroupType::Root => GroupKind::Root,
                GroupType::Call { name, inverted } => GroupKind::Call { name: name@, inverted },
            },
            operands: gate_models(self.operands@),
        }
    }
}

spec fn group_models(s: Seq<Group>) -> Seq<GroupModel> {
    s.map_values(|g: Group| g@)
}

/// Whether the string spells `w`.
fn spells(s: &String, w: &str) -> (r: bool)
    ensures
        r == (s@ == w@),
{
    let a = s.as_str();
    let n = a.unicode_len();
    if n != w.unicode_len() {
        return false;
    }
    let mut i: usize = 0;
    while i < n
        invariant
            n == a@.len() == w@.len(),
            a@ == s@,
            i <= n,
            a@.take(i as int) == w@.take(i as int),
        decreases n - i,
    {
        if a.get_char(i) != w.get_char(i) {
            return false;
        }
        assert(a@.take(i + 1) =~= a@.take(i as int).push(a@[i as int]));
        assert(w@.take(i + 1) =~= w@.take(i as int).push(w@[i as int]));
        i += 1;
    }
    assert(a@.take(n as int) =~= a@);
    assert(w@.take(n as int) =~= w@);
    true
}

/// Adds `g` to the operands of the top group.
fn push_operand(stack: &mut Vec<Group>, g: Gate)
    requires
        old(stack)@.len() >= 1,
    ensures
        group_models(final(stack)@) == with_operand(group_models(old(stack)@), g@),
        final(stack)@.len() == old(stack)@.len(),
        forall|k: int|
            0 <= k < final(stack)@.len() ==> (#[trigger] final(stack)@[k]).kind == old(stack)@[k].kind,
{
    let mut top = stack.pop().unwrap();
    proof {
        lemma_gate_models_push(top.operands@, g);
    }
    top.operands.push(g);
    stack.push(top);
    assert(group_models(stack@) =~= with_operand(group_models(old(stack)@), g@));
}

/// Parses the tokens of one line into its input count and gate tree.
pub fn parse(tokens: &[Token]) -> (r: Result<(usize, Gate), Error>)
    requires
        inputs_fit(token_models(tokens@)),
    ensures
        parsed(r) == parse_model(token_models(tokens@)),
{
    let ghost toks = token_models(tokens@);
    let mut stack: Vec<Group> = Vec::new();
    stack.push(Group { kind: GroupType::Root, operands: Vec::new() });
    let mut inverted = false;
    let mut expect_operand = true;
    let mut max_input: usize = 0;
    let mut i: usize = 0;
    assert(group_models(stack@) =~= initial_state().stack) by {
        assert(gate_models(stack@[0].operands@) =~= seq![]);
    }
    while i < tokens.len()
        invariant
            toks == token_models(tokens@),
            inputs_fit(toks),
            i <= tokens@.len(),
            stack@.len() >= 1,
            stack@[0].kind is Root,
            forall|k: int| 1 <= k < stack@.len() ==> (#[trigger] stack@[k]).kind is Call,
            parse_model(toks) == run(
                toks,
                i as int,
                ParseState {
                    stack: group_models(stack@),
                    inverted,
                    expect_operand,
                    max_input: max_input as nat,
                },
            ),
        decreases tokens@.len() - i,
    {
        let ghost st = ParseState {
            stack: group_models(stack@),
            inverted,
            expect_operand,
            max_input: max_input as nat,
        };
        assert(toks[i as int] == tokens@[i as int]@);
        match &tokens[i] {
            Token::LeftParen => {
                return Err(Error::UnexpectedToken { token: Token::LeftParen });
            },
            Token::RightParen => {
                if expect_operand || stack.len() == 1 {
                    return Err(Error::UnexpectedRightParen);
                }
                let top = stack.pop().unwrap();
                assert(group_models(stack@) =~= st.stack.drop_last());
                assert(top@ == st.stack.last());
                let Group { kind, operands } = top;
                match kind {
                    GroupType::Call { name, inverted: call_inverted } => {
                        let is_and = spells(&name, "and");
                        let is_or = spells(&name, "or");
                        proof {
                            reveal_strlit("and");
                            reveal_strlit("or");
                            assert("and"@ =~= and_name());
                            assert("or"@ =~= or_name());
                        }
                        if !is_and && !is_or {
                            return Err(Error::UnknownFunction { name });
                        }
                        proof {
                            lemma_view_and_or(operands);
                        }
                        let node = if is_and {
                            Gate::And(operands)
                        } else {
                            Gate::Or(operands)
                        };
                        push_operand(&mut stack, node.inverted_if(call_inverted));
                        if stack.len() == 1 && i + 1 < tokens.len() {
                            return Err(Error::UnexpectedTokensAfterExpr);
                        }
                        i += 1;
                    },
                    GroupType::Root => {
                        return Err(Error::UnexpectedRightParen);
                    },
                }
            },
            Token::Not => {
                inverted = !inverted;
                i += 1;
            },
            Token::Comma => {
                if stack.len() == 1 || expect_operand {
                    return Err(Error::UnexpectedComma);
                }
                expect_operand = true;
                i += 1;
            },
            Token::Input { index } => {
                if !expect_operand {
                    return Err(Error::UnexpectedToken { token: Token::Input { index: *index } });
                }
                expect_operand = false;
                if *index >= max_input {
                    max_input = *index + 1;
                }
                let node = Gate::Input(*index).inverted_if(inverted);
                if stack.len() == 1 {
                    if i + 1 < tokens.len() {
                        return Err(Error::UnexpectedTokensAfterExpr);
                    }
                    return Ok((max_input, node));
                }
                push_operand(&mut stack, node);
                inverted = false;
                i += 1;
            },
            Token::Identifier { value } => {
                if !expect_operand {
                    return Err(Error::UnexpectedToken { token: Token::Identifier { value: value.clone() } });
                }
                if i + 1 >= tokens.len() {
                    return Err(Error::UnexpectedEndOfSource);
                }
                assert(toks[i + 1] == tokens@[i + 1]@);
                match &tokens[i + 1] {
                    Token::LeftParen => {},
                    _ => {
                        return Err(Error::UnexpectedToken { token: Token::Identifier { value: value.clone() } });
                    },
                }
                let group = Group {
                    kind: GroupType::Call { name: value.clone(), inverted },
                    operands: Vec::new(),
                };
                assert(gate_models(group.operands@) =~= seq![]);
                stack.push(group);
                assert(group_models(stack@) =~= st.stack.push(group@));
                inverted = false;
                i += 2;
            },
        }
    }
    if stack.len() != 1 {
        return Err(Error::InvalidParentheses);
    }
    let root = stack.pop().unwrap();
    let mut operands = root.operands;
    if operands.len() == 0 {
        return Err(Error::EmptyExpression);
    }
    let g = operands.pop().unwrap();
    Ok((max_input, g))
}

/// The largest arity among the operands of the first `m` groups.
pub open spec fn stack_arity(stack: Seq<GroupModel>, m: int) -> nat
    decreases m,
{
    if m <= 0 {
        0
    } else {
        max_nat(
            stack_arity(stack, m - 1),
            arity_prefix(stack[m - 1].operands, stack[m - 1].operands.len() as int),
        )
    }
}

proof fn lemma_stack_arity_agree(s: Seq<GroupModel>, t: Seq<GroupModel>, m: int)
    requires
        0 <= m <= s.len(),
        m <= t.len(),
        forall|k: int| 0 <= k < m ==> s[k] == t[k],
    ensures
        stack_arity(s, m) == stack_arity(t, m),
    decreases m,
{
    if m > 0 {
        lemma_stack_arity_agree(s, t, m - 1);
    }
}

proof fn lemma_stack_arity_with_operand(stack: Seq<GroupModel>, g: GateModel)
    requires
        stack.len() >= 1,
    ensures
        stack_arity(with_operand(stack, g), stack.len() as int) == max_nat(
            stack_arity(stack, stack.len() as int),
            arity(g),
        ),
{
    let n = stack.len() as int;
    let t = with_operand(stack, g);
    lemma_stack_arity_agree(stack, t, n - 1);
    lemma_arity_prefix_push(stack[n - 1].operands, g);
}

proof fn lemma_arity_inverted(b: bool, g: GateModel)
    ensures
        arity(inverted_if(b, g)) == arity(g),
{
    if b {
        assert(arity(GateModel::Not(Box::new(g))) == arity(g));
    }
}

/// Along a run, the input count is the largest arity of the operands collected
/// so far, and the root group holds an operand only once no token is left.
proof fn lemma_run_arity(toks: Seq<TokenModel>, i: int, st: ParseState)
    requires
        0 <= i,
        st.stack.len() >= 1,
        st.max_input == stack_arity(st.stack, st.stack.len() as int),
        st.stack[0].operands.len() <= 1,
        st.stack[0].operands.len() == 1 ==> i >= toks.len(),
    ensures
        run(toks, i, st) is Ok ==> run(toks, i, st)->Ok_0.0 == arity(run(toks, i, st)->Ok_0.1),
    decreases toks.len() - i,
{
    let r = run(toks, i, st);
    if i >= toks.len() {
        if r is Ok {
            let ops = st.stack[0].operands;
            assert(ops.len() == 1);
            assert(stack_arity(st.stack, 1) == max_nat(stack_arity(st.stack, 0), arity_prefix(ops, 1)));
            assert(arity_prefix(ops, 1) == max_nat(arity_prefix(ops, 0), arity(ops[0])));
        }
    } else {
        match toks[i] {
            TokenModel::RightParen => {
                if !(st.expect_operand || st.stack.len() <= 1) {
                    match st.stack.last().kind {
                        GroupKind::Call { name, inverted } => {
                            if name == and_name() || name == or_name() {
                                let ops = st.stack.last().operands;
                                let node = if name == and_name() {
                                    GateModel::And(ops)
                                } else {
                                    GateModel::Or(ops)
                                };
                                let rest = st.stack.drop_last();
                                let stack = with_operand(rest, inverted_if(inverted, node));
                                let n = st.stack.len() as int;
                                lemma_stack_arity_agree(rest, st.stack, n - 1);
                                lemma_stack_arity_with_operand(rest, inverted_if(inverted, node));
                                lemma_arity_inverted(inverted, node);
                                assert(arity(node) == arity_prefix(ops, ops.len() as int));
                                if !(stack.len() == 1 && i + 1 < toks.len()) {
                                    if rest.len() > 1 {
                                        assert(stack[0] == st.stack[0]);
                                    }
                                    lemma_run_arity(
                                        toks,
                                        i + 1,
                                        ParseState {
                                            stack,
                                            inverted: st.inverted,
                                            expect_operand: st.expect_operand,
                                            max_input: st.max_input,
                                        },
                                    );
                                }
                            }
                        },
                        GroupKind::Root => {},
                    }
                }
            },
            TokenModel::Not => {
                lemma_run_arity(
                    toks,
                    i + 1,
                    ParseState {
                        stack: st.stack,
                        inverted: !st.inverted,
                        expect_operand: st.expect_operand,
                        max_input: st.max_input,
                    },
                );
            },
            TokenModel::Comma => {
                if !(st.stack.len() <= 1 || st.expect_operand) {
                    lemma_run_arity(
                        toks,
                        i + 1,
                        ParseState {
                            stack: st.stack,
                            inverted: st.inverted,
                            expect_operand: true,
                            max_input: st.max_input,
                        },
                    );
                }
            },
            TokenModel::Input(index) => {
                if st.expect_operand {
                    let node = inverted_if(st.inverted, GateModel::Input(index));
                    let max_input = count_after(st.max_input, index);
                    let stack = with_operand(st.stack, node);
                    lemma_stack_arity_with_operand(st.stack, node);
                    lemma_arity_inverted(st.inverted, GateModel::Input(index));
                    if st.stack.len() <= 1 {
                        if r is Ok {
                            assert(stack[0].operands =~= seq![node]);
                            assert(stack_arity(stack, 1) == max_nat(stack_arity(stack, 0), arity_prefix(stack[0].operands, 1)));
                            assert(arity_prefix(stack[0].operands, 1) == max_nat(arity_prefix(stack[0].operands, 0), arity(node)));
                        }
                    } else {
                        assert(stack[0] == st.stack[0]);
                        lemma_run_arity(
                            toks,
                            i + 1,
                            ParseState { stack, inverted: false, expect_operand: false, max_input },
                        );
                    }
                }
            },
            TokenModel::Identifier(name) => {
                if st.expect_operand && i + 1 < toks.len() && toks[i + 1] == TokenModel::LeftParen {
                    let group = GroupModel {
                        kind: GroupKind::Call { name, inverted: st.inverted },
                        operands: seq![],
                    };
                    let stack = st.stack.push(group);
                    lemma_stack_arity_agree(st.stack, stack, st.stack.len() as int);
                    assert(stack_arity(stack, stack.len() as int) == max_nat(
                        stack_arity(stack, st.stack.len() as int),
                        arity_prefix(group.operands, 0),
                    ));
                    lemma_run_arity(
                        toks,
                        i + 2,
                        ParseState {
                            stack,
                            inverted: false,
                            expect_operand: true,
                            max_input: st.max_input,
                        },
                    );
                }
            },
            TokenModel::LeftParen => {},
        }
    }
}

/// Whenever a line parses, its input count is one more than the largest
/// input index in its gate tree.
pub proof fn lemma_count_matches_tree(toks: Seq<TokenModel>)
    ensures
        parse_model(toks) is Ok ==> parse_model(toks)->Ok_0.0 == arity(parse_model(toks)->Ok_0.1),
{
    let st = initial_state();
    assert(stack_arity(st.stack, 1) == max_nat(stack_arity(st.stack, 0), arity_prefix(st.stack[0].operands, 0)));
    lemma_run_arity(toks, 0, st);
}

/// Every operand collected in the stack is well formed.
pub open spec fn stack_wf(stack: Seq<GroupModel>) -> bool {
    forall|k: int|
        0 <= k < stack.len() ==> gates_wf(
            #[trigger] stack[k].operands,
            stack[k].operands.len() as int,
        )
}

proof fn lemma_stack_wf_with_operand(stack: Seq<GroupModel>, g: GateModel)
    requires
        stack.len() >= 1,
        stack_wf(stack),
        gate_wf(g),
    ensures
        stack_wf(with_operand(stack, g)),
{
    let t = with_operand(stack, g);
    let n = stack.len() - 1;
    lemma_gates_wf_push(stack[n].operands, g);
    assert forall|k: int| 0 <= k < t.len() implies gates_wf(
        #[trigger] t[k].operands,
        t[k].operands.len() as int,
    ) by {
        if k != n {
            assert(t[k] == stack[k]);
        }
    }
}

/// Along a run, every collected operand is well formed, and the top group
/// holds an operand whenever no operand is expected.
proof fn lemma_run_wf(toks: Seq<TokenModel>, i: int, st: ParseState)
    requires
        0 <= i,
        st.stack.len() >= 1,
        stack_wf(st.stack),
        !st.expect_operand ==> st.stack.last().operands.len() > 0,
        st.stack[0].operands.len() <= 1,
        st.stack[0].operands.len() == 1 ==> i >= toks.len(),
    ensures
        run(toks, i, st) is Ok ==> gate_wf(run(toks, i, st)->Ok_0.1),
    decreases toks.len() - i,
{
    let r = run(toks, i, st);
    if i >= toks.len() {
        if r is Ok {
            let ops = st.stack[0].operands;
            assert(gates_wf(ops, ops.len() as int));
            assert(gates_wf(ops, 1) == (gates_wf(ops, 0) && gate_wf(ops[0])));
        }
    } else {
        match toks[i] {
            TokenModel::RightParen => {
                if !(st.expect_operand || st.stack.len() <= 1) {
                    match st.stack.last().kind {
                        GroupKind::Call { name, inverted } => {
                            if name == and_name() || name == or_name() {
                                let ops = st.stack.last().operands;
                                let node = if name == and_name() {
                                    GateModel::And(ops)
                                } else {
                                    GateModel::Or(ops)
                                };
                                let rest = st.stack.drop_last();
                                let stack = with_operand(rest, inverted_if(inverted, node));
                                assert(gates_wf(ops, ops.len() as int));
                                assert(gate_wf(node));
                                assert(gate_wf(inverted_if(inverted, node)));
                                assert(stack_wf(rest)) by {
                                    assert forall|k: int| 0 <= k < rest.len() implies gates_wf(
                                        #[trigger] rest[k].operands,
                                        rest[k].operands.len() as int,
                                    ) by {
                                        assert(rest[k] == st.stack[k]);
                                    }
                                }
                                lemma_stack_wf_with_operand(rest, inverted_if(inverted, node));
                                if !(stack.len() == 1 && i + 1 < toks.len()) {
                                    if rest.len() > 1 {
                                        assert(stack[0] == st.stack[0]);
                                    }
                                    lemma_run_wf(
                                        toks,
                                        i + 1,
                                        ParseState {
                                            stack,
                                            inverted: st.inverted,
                                            expect_operand: st.expect_operand,
                                            max_input: st.max_input,
                                        },
                                    );
                                }
                            }
                        },
                        GroupKind::Root => {},
                    }
                }
            },
            TokenModel::Not => {
                lemma_run_wf(
                    toks,
                    i + 1,
                    ParseState {
                        stack: st.stack,
                        inverted: !st.inverted,
                        expect_operand: st.expect_operand,
                        max_input: st.max_input,
                    },
                );
            },
            TokenModel::Comma => {
                if !(st.stack.len() <= 1 || st.expect_operand) {
                    lemma_run_wf(
                        toks,
                        i + 1,
                        ParseState {
                            stack: st.stack,
                            inverted: st.inverted,
                            expect_operand: true,
                            max_input: st.max_input,
                        },
                    );
                }
            },
            TokenModel::Input(index) => {
                if st.expect_operand {
                    let node = inverted_if(st.inverted, GateModel::Input(index));
                    let max_input = count_after(st.max_input, index);
                    let stack = with_operand(st.stack, node);
                    assert(gate_wf(GateModel::Input(index)));
                    assert(gate_wf(node));
                    if st.stack.len() > 1 {
                        assert(stack[0] == st.stack[0]);
                        lemma_stack_wf_with_operand(st.stack, node);
                        lemma_run_wf(
                            toks,
                            i + 1,
                            ParseState { stack, inverted: false, expect_operand: false, max_input },
                        );
                    }
                }
            },
            TokenModel::Identifier(name) => {
                if st.expect_operand && i + 1 < toks.len() && toks[i + 1] == TokenModel::LeftParen {
                    let group = GroupModel {
                        kind: GroupKind::Call { name, inverted: st.inverted },
                        operands: seq![],
                    };
                    let stack = st.stack.push(group);
                    assert(stack_wf(stack)) by {
                        assert forall|k: int| 0 <= k < stack.len() implies gates_wf(
                            #[trigger] stack[k].operands,
                            stack[k].operands.len() as int,
                        ) by {
                            if k < st.stack.len() {
                                assert(stack[k] == st.stack[k]);
                            }
                        }
                    }
                    lemma_run_wf(
                        toks,
                        i + 2,
                        ParseState {
                            stack,
                            inverted: false,
                            expect_operand: true,
                            max_input: st.max_input,
                        },
                    );
                }
            },
            TokenModel::LeftParen => {},
        }
    }
}

/// Every AND and OR of a parsed gate tree has at least one child.
pub proof fn lemma_parsed_tree_wf(toks: Seq<TokenModel>)
    ensures
        parse_model(toks) is Ok ==> gate_wf(parse_model(toks)->Ok_0.1),
{
    let st = initial_state();
    assert(stack_wf(st.stack)) by {
        assert(gates_wf(st.stack[0].operands, 0));
    }
    lemma_run_wf(toks, 0, st);
}

} // verus!
