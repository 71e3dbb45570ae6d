use vstd::prelude::*;

verus! {

/// Mathematical model of a gate tree.
pub enum GateModel {
    Input(nat),
    Not(Box<GateModel>),
    And(Seq<GateModel>),
    Or(Seq<GateModel>),
}

/// A gate tree: numbered external inputs combined by NOT, AND and OR.
#[derive(Debug, PartialEq, Eq)]
pub enum Gate {
    Input(usize),
    Not(Box<Gate>),
    And(Vec<Gate>),
    Or(Vec<Gate>),
}

impl View for Gate {
    type V = GateModel;

    open spec fn view(&self) -> GateModel
        decreases self, 0nat,
    {
        match self {
            Gate::Input(i) => GateModel::Input(*i as nat),
            Gate::Not(g) => GateModel::Not(Box::new((**g).view())),
            Gate::And(v) => GateModel::And(models_prefix(v, v.len() as int)),
            Gate::Or(v) => GateModel::Or(models_prefix(v, v.len() as int)),
        }
    }
}

/// The models of the first `n` gates of `v`.
pub open spec fn models_prefix(v: &Vec<Gate>, n: int) -> Seq<GateModel>
    decreases v, n,
{
    if n <= 0 || n > v.len() {
        Seq::empty()
    } else {
        models_prefix(v, n - 1).push(v[n - 1].view())
    }
}

/// The models of a sequence of gates.
pub open spec fn gate_models(s: Seq<Gate>) -> Seq<GateModel> {
    Seq::new(s.len(), |i: int| s[i]@)
}

/// Wraps `g` in a NOT where `inverted` is set.
pub open spec fn inverted_if(inverted: bool, g: GateModel) -> GateModel {
    if inverted {
        GateModel::Not(Box::new(g))
    } else {
        g
    }
}

pub proof fn lemma_gate_models_push(s: Seq<Gate>, g: Gate)
    ensures
        gate_models(s.push(g)) == gate_models(s).push(g@),
{
    assert(gate_models(s.push(g)) =~= gate_models(s).push(g@));
}

proof fn lemma_models_prefix(v: &Vec<Gate>, n: int)
    requires
        0 <= n <= v.len(),
    ensures
        models_prefix(v, n) == gate_models(v@).take(n),
    decreases n,
{
    if n > 0 {
        lemma_models_prefix(v, n - 1);
        assert(gate_models(v@).take(n) =~= gate_models(v@).take(n - 1).push(v[n - 1]@));
    } else {
        assert(gate_models(v@).take(n) =~= Seq::empty());
    }
}

pub proof fn lemma_view_and_or(v: Vec<Gate>)
    ensures
        Gate::And(v)@ == GateModel::And(gate_models(v@)),
        Gate::Or(v)@ == GateModel::Or(gate_models(v@)),
{
    lemma_models_prefix(&v, v.len() as int);
    assert(gate_models(v@).take(v.len() as int) =~= gate_models(v@));
}

impl Gate {
    /// This gate under a NOT where `inverted` is set.
    pub fn inverted_if(self, inverted: bool) -> (r: Gate)
        ensures
            r@ == inverted_if(inverted, self@),
    {
        if inverted {
            Gate::Not(Box::new(self))
        } else {
            self
        }
    }
}

pub open spec fn max_nat(a: nat, b: nat) -> nat {
    if a >= b {
        a
    } else {
        b
    }
}

/// One more than the largest input index in the tree; 0 where it has no input.
pub open spec fn arity(g: GateModel) -> nat
    decreases g, 0nat,
{
    match g {
        GateModel::Input(i) => i + 1,
        GateModel::Not(inner) => arity(*inner),
        GateModel::And(s) => arity_prefix(s, s.len() as int),
        GateModel::Or(s) => arity_prefix(s, s.len() as int),
    }
}

/// The largest arity among the first `n` trees of `s`; 0 for none.
pub open spec fn arity_prefix(s: Seq<GateModel>, n: int) -> nat
    decreases s, n,
{
    if n <= 0 || n > s.len() {
        0
    } else {
        max_nat(arity_prefix(s, n - 1), arity(s[n - 1]))
    }
}

pub proof fn lemma_arity_prefix_agree(s: Seq<GateModel>, t: Seq<GateModel>, n: int)
    requires
        0 <= n <= s.len(),
        n <= t.len(),
        forall|k: int| 0 <= k < n ==> s[k] == t[k],
    ensures
        arity_prefix(s, n) == arity_prefix(t, n),
    decreases n,
{
    if n > 0 {
        lemma_arity_prefix_agree(s, t, n - 1);
    }
}

pub proof fn lemma_arity_prefix_push(s: Seq<GateModel>, g: GateModel)
    ensures
        arity_prefix(s.push(g), s.len() + 1 as int) == max_nat(arity_prefix(s, s.len() as int), arity(g)),
{
    lemma_arity_prefix_agree(s, s.push(g), s.len() as int);
}

/// Every AND and OR of the tree has at least one child.
pub open spec fn gate_wf(g: GateModel) -> bool
    decreases g, 0nat,
{
    match g {
        GateModel::Input(_) => true,
        GateModel::Not(inner) => gate_wf(*inner),
        GateModel::And(s) => s.len() > 0 && gates_wf(s, s.len() as int),
        GateModel::Or(s) => s.len() > 0 && gates_wf(s, s.len() as int),
    }
}

/// The first `n` trees of `s` are well formed.
pub open spec fn gates_wf(s: Seq<GateModel>, n: int) -> bool
    decreases s, n,
{
    if n <= 0 || n > s.len() {
        true
    } else {
        gates_wf(s, n - 1) && gate_wf(s[n - 1])
    }
}

pub proof fn lemma_gates_wf_agree(s: Seq<GateModel>, t: Seq<GateModel>, n: int)
    requires
        0 <= n <= s.len(),
        n <= t.len(),
        forall|k: int| 0 <= k < n ==> s[k] == t[k],
    ensures
        gates_wf(s, n) == gates_wf(t, n),
    decreases n,
{
    if n > 0 {
        lemma_gates_wf_agree(s, t, n - 1);
    }
}

pub proof fn lemma_gates_wf_push(s: Seq<GateModel>, g: GateModel)
    ensures
        gates_wf(s.push(g), s.len() + 1 as int) == (gates_wf(s, s.len() as int) && gate_wf(g)),
{
    lemma_gates_wf_agree(s, s.push(g), s.len() as int);
}

} // verus!
