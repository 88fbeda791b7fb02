//! The sign/decoration algebra and the Boolean evaluation of a relation's
//! form tree over per-atom evaluation results.

use vstd::prelude::*;

verus! {

/// The bit for the negative sign in a [`SignSet`].
pub const SIGN_NEG: u8 = 1;

/// The bit for the zero sign in a [`SignSet`].
pub const SIGN_ZERO: u8 = 2;

/// The bit for the positive sign in a [`SignSet`].
pub const SIGN_POS: u8 = 4;

/// The bit for NaN in a [`SignSet`].
pub const SIGN_NAN: u8 = 8;

/// A set of signs {−, 0, +, NaN} that an expression can take on a region,
/// stored as a four-bit vector.
#[derive(Clone, Copy, Debug, Eq, PartialEq, Structural)]
pub struct SignSet {
    /// The four sign bits.
    pub bits: u8,
}

impl SignSet {
    /// Only well-formed sign sets use the four low bits.
    pub open spec fn wf(self) -> bool {
        self.bits < 16
    }

    /// Returns the empty sign set.
    pub fn empty() -> (r: Self)
        ensures
            r.bits == 0,
    {
        Self { bits: 0 }
    }

    /// Returns the sign set with exactly the given bits.
    pub fn from_bits(bits: u8) -> (r: Self)
        requires
            bits < 16,
        ensures
            r.bits == bits,
            r.wf(),
    {
        Self { bits }
    }

    /// Returns the singleton sign set {0}.
    pub fn zero() -> (r: Self)
        ensures
            r.bits == SIGN_ZERO,
    {
        Self { bits: SIGN_ZERO }
    }

    /// Returns the union of the two sign sets.
    pub fn union(self, other: Self) -> (r: Self)
        ensures
            r.bits == (self.bits | other.bits),
    {
        Self { bits: self.bits | other.bits }
    }

    /// `other` is a subset of `self`.
    pub open spec fn spec_contains(self, other: Self) -> bool {
        self.bits & other.bits == other.bits
    }

    /// Returns `true` if every sign of `other` is also in `self`.
    pub fn contains(self, other: Self) -> (r: bool)
        ensures
            r == self.spec_contains(other),
    {
        self.bits & other.bits == other.bits
    }
}

/// The decoration of an interval evaluation, ordered from weakest to
/// strongest: `Trv < Def < Dac < Com`.
#[derive(Clone, Copy, Debug, Eq, PartialEq, Structural)]
pub enum Decoration {
    /// The "trivial" decoration: nothing is known.
    Trv,
    /// The expression is defined everywhere on the region.
    Def,
    /// The expression is defined and continuous on the region.
    Dac,
    /// The "common" decoration: defined, continuous and bounded.
    Com,
}

impl Decoration {
    /// The position of the decoration in the order `Trv < Def < Dac < Com`.
    pub open spec fn spec_rank(self) -> int {
        match self {
            Decoration::Trv => 0,
            Decoration::Def => 1,
            Decoration::Dac => 2,
            Decoration::Com => 3,
        }
    }

    /// Returns `true` if `self` is at least as strong as `other`.
    pub fn ge(self, other: Self) -> (r: bool)
        ensures
            r == (self.spec_rank() >= other.spec_rank()),
    {
        self.rank() >= other.rank()
    }

    /// Returns the rank of the decoration in the order `Trv < Def < Dac < Com`.
    fn rank(self) -> (r: u8)
        ensures
            r == self.spec_rank(),
    {
        match self {
            Decoration::Trv => 0,
            Decoration::Def => 1,
            Decoration::Dac => 2,
            Decoration::Com => 3,
        }
    }
}

/// The result of evaluating one atomic formula on a region: the signs the
/// residual can take, and the decoration of the evaluation.
#[derive(Clone, Copy, Debug, Eq, PartialEq, Structural)]
pub struct DecSignSet(pub SignSet, pub Decoration);

impl DecSignSet {
    /// The atom certainly holds on the whole region: the residual is
    /// identically zero and the evaluation is defined everywhere.
    pub open spec fn spec_certainly_zero(self) -> bool {
        self.0.bits == SIGN_ZERO && self.1.spec_rank() >= Decoration::Def.spec_rank()
    }

    /// The residual may be zero somewhere on the region.
    pub open spec fn spec_possibly_zero(self) -> bool {
        self.0.bits & SIGN_ZERO == SIGN_ZERO
    }
}

/// The index of a scalar term in the collaborator's term store.
pub type TermIndex = u32;

/// The index of a form in a form list.
pub type FormIndex = u32;

/// The comparison operator of an atomic formula `f ⋈ g`.
#[derive(Clone, Copy, Debug, Eq, PartialEq, Structural)]
pub enum RelOp {
    /// `=`
    Eq,
    /// `≥`
    Ge,
    /// `>`
    Gt,
    /// `≤`
    Le,
    /// `<`
    Lt,
    /// `≠`
    Neq,
    /// `¬≥`
    Nge,
    /// `¬>`
    Ngt,
    /// `¬≤`
    Nle,
    /// `¬<`
    Nlt,
}

/// The kind of a [`StaticForm`].
#[derive(Clone, Copy, Debug, Eq, PartialEq, Structural)]
pub enum StaticFormKind {
    /// An atomic formula comparing two terms.
    Atomic(RelOp, TermIndex, TermIndex),
    /// The conjunction of two earlier forms.
    And(FormIndex, FormIndex),
    /// The disjunction of two earlier forms.
    Or(FormIndex, FormIndex),
}

/// One node of the flattened Boolean form tree of a relation. Atomic forms
/// come first, in the order of the per-atom slots of an [`EvalResult`];
/// compound forms follow and refer to earlier forms only. The last form is
/// the root.
#[derive(Clone, Copy, Debug, Eq, PartialEq, Structural)]
pub struct StaticForm {
    /// The kind of the form.
    pub kind: StaticFormKind,
}

/// Form lists the engine accepts: the first `n_atoms` forms are atomic, the
/// rest are conjunctions or disjunctions of strictly earlier forms.
pub open spec fn spec_forms_wf(forms: Seq<StaticForm>, n_atoms: int) -> bool {
    &&& 0 <= n_atoms <= forms.len()
    &&& forall|i: int|
        0 <= i < n_atoms ==> ((#[trigger] forms[i].kind) matches StaticFormKind::Atomic(_, _, _))
    &&& forall|i: int|
        n_atoms <= i < forms.len() ==> match (#[trigger] forms[i].kind) {
            StaticFormKind::Atomic(_, _, _) => false,
            StaticFormKind::And(x, y) => 0 <= x < i && 0 <= y < i,
            StaticFormKind::Or(x, y) => 0 <= x < i && 0 <= y < i,
        }
}

/// The Boolean value of form `i` over a per-atom mask: an atomic form takes
/// its slot of the mask, a compound form combines its children.
pub open spec fn spec_eval_form(mask: Seq<bool>, forms: Seq<StaticForm>, i: int) -> bool
    decreases i,
{
    if 0 <= i < forms.len() {
        match forms[i].kind {
            StaticFormKind::Atomic(_, _, _) => 0 <= i < mask.len() && mask[i],
            StaticFormKind::And(x, y) => {
                if 0 <= x < i && 0 <= y < i {
                    spec_eval_form(mask, forms, x as int) && spec_eval_form(mask, forms, y as int)
                } else {
                    false
                }
            },
            StaticFormKind::Or(x, y) => {
                if 0 <= x < i && 0 <= y < i {
                    spec_eval_form(mask, forms, x as int) || spec_eval_form(mask, forms, y as int)
                } else {
                    false
                }
            },
        }
    } else {
        false
    }
}

/// Whether a sign-change witness exists for form `i`: an atomic form needs
/// its own witness bit; a conjunction needs, on each branch, a witness or a
/// conjunct that holds identically on the whole block; a disjunction needs a
/// witness in either branch.
pub open spec fn spec_witness_form(
    witness: Seq<bool>,
    locally_zero: Seq<bool>,
    forms: Seq<StaticForm>,
    i: int,
) -> bool
    decreases i,
{
    if 0 <= i < forms.len() {
        match forms[i].kind {
            StaticFormKind::Atomic(_, _, _) => 0 <= i < witness.len() && witness[i],
            StaticFormKind::And(x, y) => {
                if 0 <= x < i && 0 <= y < i {
                    (spec_witness_form(witness, locally_zero, forms, x as int)
                        || spec_eval_form(locally_zero, forms, x as int))
                        && (spec_witness_form(witness, locally_zero, forms, y as int)
                        || spec_eval_form(locally_zero, forms, y as int))
                } else {
                    false
                }
            },
            StaticFormKind::Or(x, y) => {
                if 0 <= x < i && 0 <= y < i {
                    spec_witness_form(witness, locally_zero, forms, x as int)
                        || spec_witness_form(witness, locally_zero, forms, y as int)
                } else {
                    false
                }
            },
        }
    } else {
        false
    }
}

/// The per-atomic-formula result of evaluating a relation on a region.
#[derive(Debug, PartialEq)]
pub struct EvalResult(pub Vec<DecSignSet>);

impl View for EvalResult {
    type V = Seq<DecSignSet>;

    open spec fn view(&self) -> Seq<DecSignSet> {
        self.0@
    }
}

/// A Boolean slice over the atomic formulas of a relation, obtained by
/// mapping a predicate over an [`EvalResult`].
#[derive(Debug, PartialEq)]
pub struct EvalResultMask(pub Vec<bool>);

impl View for EvalResultMask {
    type V = Seq<bool>;

    open spec fn view(&self) -> Seq<bool> {
        self.0@
    }
}

impl EvalResult {
    /// Returns a copy of the result.
    pub fn clone_result(&self) -> (r: Self)
        ensures
            r@ == self@,
    {
        let mut out: Vec<DecSignSet> = Vec::new();
        let mut i: usize = 0;
        while i < self.0.len()
            invariant
                i <= self.0.len(),
                out@ == self@.subrange(0, i as int),
            decreases self.0.len() - i,
        {
            out.push(self.0[i]);
            proof {
                assert(out@ == self@.subrange(0, i as int + 1));
            }
            i = i + 1;
        }
        proof {
            assert(self@.subrange(0, self@.len() as int) == self@);
        }
        EvalResult(out)
    }

    /// Maps each slot to "the atom certainly holds on the whole region".
    pub fn map_certainly_zero(&self) -> (r: EvalResultMask)
        ensures
            r@.len() == self@.len(),
            forall|i: int| 0 <= i < self@.len() ==> r@[i] == self@[i].spec_certainly_zero(),
    {
        let mut out: Vec<bool> = Vec::new();
        let mut i: usize = 0;
        while i < self.0.len()
            invariant
                i <= self.0.len(),
                out@.len() == i,
                forall|j: int| 0 <= j < i ==> out@[j] == self@[j].spec_certainly_zero(),
            decreases self.0.len() - i,
        {
            let DecSignSet(ss, d) = self.0[i];
            out.push(ss.bits == SIGN_ZERO && d.ge(Decoration::Def));
            i = i + 1;
        }
        EvalResultMask(out)
    }

    /// Maps each slot to "the residual may be zero somewhere on the region".
    pub fn map_possibly_zero(&self) -> (r: EvalResultMask)
        ensures
            r@.len() == self@.len(),
            forall|i: int| 0 <= i < self@.len() ==> r@[i] == self@[i].spec_possibly_zero(),
    {
        let mut out: Vec<bool> = Vec::new();
        let mut i: usize = 0;
        while i < self.0.len()
            invariant
                i <= self.0.len(),
                out@.len() == i,
                forall|j: int| 0 <= j < i ==> out@[j] == self@[j].spec_possibly_zero(),
            decreases self.0.len() - i,
        {
            let DecSignSet(ss, _) = self.0[i];
            out.push(ss.bits & SIGN_ZERO == SIGN_ZERO);
            i = i + 1;
        }
        EvalResultMask(out)
    }

    /// Maps each slot to "the evaluation is defined and continuous",
    /// the prerequisite of an intermediate-value-theorem argument.
    pub fn map_dac(&self) -> (r: EvalResultMask)
        ensures
            r@.len() == self@.len(),
            forall|i: int|
                0 <= i < self@.len() ==> r@[i] == (self@[i].1.spec_rank()
                    >= Decoration::Dac.spec_rank()),
    {
        let mut out: Vec<bool> = Vec::new();
        let mut i: usize = 0;
        while i < self.0.len()
            invariant
                i <= self.0.len(),
                out@.len() == i,
                forall|j: int|
                    0 <= j < i ==> out@[j] == (self@[j].1.spec_rank()
                        >= Decoration::Dac.spec_rank()),
            decreases self.0.len() - i,
        {
            let DecSignSet(_, d) = self.0[i];
            out.push(d.ge(Decoration::Dac));
            i = i + 1;
        }
        EvalResultMask(out)
    }

    /// Maps each slot to "the residual is nonpositive": its sign set is
    /// contained in {−, 0}.
    pub fn map_nonpositive(&self) -> (r: EvalResultMask)
        ensures
            r@.len() == self@.len(),
            forall|i: int|
                0 <= i < self@.len() ==> r@[i] == (self@[i].0.bits & (SIGN_POS | SIGN_NAN) == 0),
    {
        let mut out: Vec<bool> = Vec::new();
        let mut i: usize = 0;
        while i < self.0.len()
            invariant
                i <= self.0.len(),
                out@.len() == i,
                forall|j: int|
                    0 <= j < i ==> out@[j] == (self@[j].0.bits & (SIGN_POS | SIGN_NAN) == 0),
            decreases self.0.len() - i,
        {
            let DecSignSet(ss, _) = self.0[i];
            out.push(ss.bits & (SIGN_POS | SIGN_NAN) == 0);
            i = i + 1;
        }
        EvalResultMask(out)
    }

    /// Maps each slot to "the residual is nonnegative": its sign set is
    /// contained in {0, +}.
    pub fn map_nonnegative(&self) -> (r: EvalResultMask)
        ensures
            r@.len() == self@.len(),
            forall|i: int|
                0 <= i < self@.len() ==> r@[i] == (self@[i].0.bits & (SIGN_NEG | SIGN_NAN) == 0),
    {
        let mut out: Vec<bool> = Vec::new();
        let mut i: usize = 0;
        while i < self.0.len()
            invariant
                i <= self.0.len(),
                out@.len() == i,
                forall|j: int|
                    0 <= j < i ==> out@[j] == (self@[j].0.bits & (SIGN_NEG | SIGN_NAN) == 0),
            decreases self.0.len() - i,
        {
            let DecSignSet(ss, _) = self.0[i];
            out.push(ss.bits & (SIGN_NEG | SIGN_NAN) == 0);
            i = i + 1;
        }
        EvalResultMask(out)
    }
}

impl EvalResultMask {
    /// Returns an all-false mask of the given length.
    pub fn all_false(n: usize) -> (r: Self)
        ensures
            r@.len() == n,
            forall|i: int| 0 <= i < n ==> !r@[i],
    {
        let mut out: Vec<bool> = Vec::new();
        let mut i: usize = 0;
        while i < n
            invariant
                i <= n,
                out@.len() == i,
                forall|j: int| 0 <= j < i ==> !out@[j],
            decreases n - i,
        {
            out.push(false);
            i = i + 1;
        }
        EvalResultMask(out)
    }

    /// Returns the slot-wise conjunction of the two masks.
    pub fn and(&self, other: &Self) -> (r: Self)
        requires
            self@.len() == other@.len(),
        ensures
            r@.len() == self@.len(),
            forall|i: int| 0 <= i < self@.len() ==> r@[i] == (self@[i] && other@[i]),
    {
        let mut out: Vec<bool> = Vec::new();
        let mut i: usize = 0;
        while i < self.0.len()
            invariant
                i <= self.0.len(),
                self@.len() == other@.len(),
                out@.len() == i,
                forall|j: int| 0 <= j < i ==> out@[j] == (self@[j] && other@[j]),
            decreases self.0.len() - i,
        {
            out.push(self.0[i] && other.0[i]);
            i = i + 1;
        }
        EvalResultMask(out)
    }

    /// Returns the slot-wise disjunction of the two masks.
    pub fn or(&self, other: &Self) -> (r: Self)
        requires
            self@.len() == other@.len(),
        ensures
            r@.len() == self@.len(),
            forall|i: int| 0 <= i < self@.len() ==> r@[i] == (self@[i] || other@[i]),
    {
        let mut out: Vec<bool> = Vec::new();
        let mut i: usize = 0;
        while i < self.0.len()
            invariant
                i <= self.0.len(),
                self@.len() == other@.len(),
                out@.len() == i,
                forall|j: int| 0 <= j < i ==> out@[j] == (self@[j] || other@[j]),
            decreases self.0.len() - i,
        {
            out.push(self.0[i] || other.0[i]);
            i = i + 1;
        }
        EvalResultMask(out)
    }

    /// Evaluates form `i` of the tree over this mask.
    fn eval_form(&self, forms: &Vec<StaticForm>, i: usize) -> (r: bool)
        requires
            spec_forms_wf(forms@, self@.len() as int),
            i < forms@.len(),
        ensures
            r == spec_eval_form(self@, forms@, i as int),
        decreases i,
    {
        match forms[i].kind {
            StaticFormKind::Atomic(_, _, _) => i < self.0.len() && self.0[i],
            StaticFormKind::And(x, y) => {
                if (x as usize) < i && (y as usize) < i {
                    self.eval_form(forms, x as usize) && self.eval_form(forms, y as usize)
                } else {
                    false
                }
            },
            StaticFormKind::Or(x, y) => {
                if (x as usize) < i && (y as usize) < i {
                    self.eval_form(forms, x as usize) || self.eval_form(forms, y as usize)
                } else {
                    false
                }
            },
        }
    }

    /// Evaluates the root of the form tree (its last form) over this mask.
    pub fn eval(&self, forms: &Vec<StaticForm>) -> (r: bool)
        requires
            spec_forms_wf(forms@, self@.len() as int),
            forms@.len() > 0,
        ensures
            r == spec_eval_form(self@, forms@, forms@.len() - 1),
    {
        self.eval_form(forms, forms.len() - 1)
    }

    /// Whether a sign-change witness exists for form `i`, with conjuncts that
    /// hold identically on the block substituting on their branch.
    fn witness_form(
        &self,
        locally_zero: &EvalResultMask,
        forms: &Vec<StaticForm>,
        i: usize,
    ) -> (r: bool)
        requires
            spec_forms_wf(forms@, self@.len() as int),
            spec_forms_wf(forms@, locally_zero@.len() as int),
            i < forms@.len(),
        ensures
            r == spec_witness_form(self@, locally_zero@, forms@, i as int),
        decreases i,
    {
        match forms[i].kind {
            StaticFormKind::Atomic(_, _, _) => i < self.0.len() && self.0[i],
            StaticFormKind::And(x, y) => {
                if (x as usize) < i && (y as usize) < i {
                    (self.witness_form(locally_zero, forms, x as usize) || locally_zero.eval_form(
                        forms,
                        x as usize,
                    )) && (self.witness_form(locally_zero, forms, y as usize)
                        || locally_zero.eval_form(forms, y as usize))
                } else {
                    false
                }
            },
            StaticFormKind::Or(x, y) => {
                if (x as usize) < i && (y as usize) < i {
                    self.witness_form(locally_zero, forms, x as usize) || self.witness_form(
                        locally_zero,
                        forms,
                        y as usize,
                    )
                } else {
                    false
                }
            },
        }
    }

    /// Returns `true` if a solution certainly exists under the relation tree,
    /// given this mask of per-atom sign-change witnesses and the mask of atoms
    /// that hold identically on the block.
    pub fn solution_certainly_exists(
        &self,
        forms: &Vec<StaticForm>,
        locally_zero: &EvalResultMask,
    ) -> (r: bool)
        requires
            spec_forms_wf(forms@, self@.len() as int),
            spec_forms_wf(forms@, locally_zero@.len() as int),
            forms@.len() > 0,
        ensures
            r == spec_witness_form(self@, locally_zero@, forms@, forms@.len() - 1),
    {
        self.witness_form(locally_zero, forms, forms.len() - 1)
    }
}

/// Evaluation over a weaker mask never turns a true form false: if the mask
/// implies another slot-wise, so do the evaluations of every form.
pub proof fn lemma_eval_form_monotone(
    m1: Seq<bool>,
    m2: Seq<bool>,
    forms: Seq<StaticForm>,
    i: int,
)
    requires
        m1.len() == m2.len(),
        forall|j: int| 0 <= j < m1.len() ==> (m1[j] ==> m2[j]),
    ensures
        spec_eval_form(m1, forms, i) ==> spec_eval_form(m2, forms, i),
    decreases i,
{
    if 0 <= i < forms.len() {
        match forms[i].kind {
            StaticFormKind::Atomic(_, _, _) => {},
            StaticFormKind::And(x, y) => {
                if 0 <= x < i && 0 <= y < i {
                    lemma_eval_form_monotone(m1, m2, forms, x as int);
                    lemma_eval_form_monotone(m1, m2, forms, y as int);
                }
            },
            StaticFormKind::Or(x, y) => {
                if 0 <= x < i && 0 <= y < i {
                    lemma_eval_form_monotone(m1, m2, forms, x as int);
                    lemma_eval_form_monotone(m1, m2, forms, y as int);
                }
            },
        }
    }
}

/// No evaluation result can prove a relation both certainly true and
/// certainly false on one region: if the tree evaluates to true over the
/// "certainly zero" mask, it also evaluates to true over the "possibly zero"
/// mask, so its negation — the certainly-false test — fails. This is what
/// keeps a pixel from ever being claimed both to contain and to lack a
/// solution by one evaluation.
pub proof fn lemma_certainly_true_excludes_certainly_false(
    r: Seq<DecSignSet>,
    forms: Seq<StaticForm>,
    i: int,
)
    ensures
        spec_eval_form(Seq::new(r.len(), |j: int| r[j].spec_certainly_zero()), forms, i)
            ==> spec_eval_form(Seq::new(r.len(), |j: int| r[j].spec_possibly_zero()), forms, i),
{
    let m1 = Seq::new(r.len(), |j: int| r[j].spec_certainly_zero());
    let m2 = Seq::new(r.len(), |j: int| r[j].spec_possibly_zero());
    assert forall|j: int| 0 <= j < m1.len() && m1[j] implies m2[j] by {
        assert(r[j].spec_certainly_zero());
        assert(SIGN_ZERO & SIGN_ZERO == SIGN_ZERO) by (bit_vector);
    }
    lemma_eval_form_monotone(m1, m2, forms, i);
}

} // verus!
