//! A validated collection of variables — unique names, equal lengths,
//! non-empty — that assembles the normalized criteria matrix and selects
//! the alternative closest to the ideal point.
use crate::ieee::f_le;
use crate::ieee::f_lt;
use crate::ieee::is_finite_bits;
use crate::ieee::sign_bits;
use crate::variables::Name;
use crate::variables::Variable;
use crate::variables::VariableProperties;
use crate::variables::VarView;
use crate::variables::name::lemma_lex_asym_from;
use crate::variables::name::lemma_lex_connected;
use crate::variables::name::lex_lt;
use crate::variables::scaling::autorescale_spec;
use crate::variables::values::valid_values;
use crate::vector::all_finite_nonneg;
use crate::vector::index_of_best_vector;
use crate::vector::l2_norm_spec;
use vstd::prelude::*;

verus! {

/// Why a list of variables is rejected as a problem.
#[derive(Debug, PartialEq, Eq, Structural)]
pub enum SolvableProblemError {
    /// The list has no variables.
    Empty,
    /// Some variable's values differ in length from the first variable's.
    VariableSizeMismatch,
    /// Two variables in the list share a name.
    RedefinitionVariable,
}

impl SolvableProblemError {
    /// The stable, human-readable description of the failure.
    pub fn message(&self) -> (r: String)
        ensures
            self == SolvableProblemError::Empty ==> r@ == "The problem cannot be empty"@,
            self == SolvableProblemError::VariableSizeMismatch ==> r@
                == "All variables must have the same number of values"@,
            self == SolvableProblemError::RedefinitionVariable ==> r@
                == "Each variable must have an unique name. You cannot redefine existing variables"@,
    {
        match self {
            SolvableProblemError::Empty => "The problem cannot be empty".to_owned(),
            SolvableProblemError::VariableSizeMismatch => {
                "All variables must have the same number of values".to_owned()
            },
            SolvableProblemError::RedefinitionVariable => {
                "Each variable must have an unique name. You cannot redefine existing variables".to_owned()
            },
        }
    }
}

/// The variables are in strictly ascending name order, so every name
/// occurs once.
pub open spec fn sorted_by_name(s: Seq<VarView>) -> bool {
    forall|i: int, j: int|
        0 <= i < j < s.len() ==> lex_lt((#[trigger] s[i]).name, (#[trigger] s[j]).name)
}

/// Every variable of the problem holds validated values.
pub open spec fn entries_valid(s: Seq<VarView>) -> bool {
    forall|k: int| 0 <= k < s.len() ==> valid_values((#[trigger] s[k]).vals)
}

/// What a problem must look like for selection to be defined: at least one
/// variable, and one value per alternative in every variable.
pub open spec fn valid_problem(s: Seq<VarView>) -> bool {
    s.len() > 0 && forall|k: int| 0 <= k < s.len() ==> (#[trigger] s[k]).vals.len()
        == s[0].vals.len()
}

/// Insertion into a name-ordered sequence: before the first entry with a
/// name not smaller; an entry with the same name is replaced.
pub open spec fn insert_by_name(s: Seq<VarView>, v: VarView) -> Seq<VarView>
    decreases s.len(),
{
    if s.len() == 0 {
        seq![v]
    } else if lex_lt(v.name, s[0].name) {
        seq![v] + s
    } else if v.name == s[0].name {
        seq![v] + s.drop_first()
    } else {
        seq![s[0]] + insert_by_name(s.drop_first(), v)
    }
}

/// The name-ordered arrangement of a sequence of variables, built by
/// inserting them one by one in given order; on shared names the latest
/// occurrence wins.
pub open spec fn sort_by_name(s: Seq<VarView>) -> Seq<VarView>
    decreases s.len(),
{
    if s.len() == 0 {
        Seq::empty()
    } else {
        insert_by_name(sort_by_name(s.drop_last()), s.last())
    }
}

/// The views of a list of variables.
pub open spec fn views_of(vs: Seq<Variable>) -> Seq<VarView> {
    Seq::new(vs.len(), |i: int| vs[i]@)
}

/// Some variable of the sequence has the given name.
pub open spec fn has_name(s: Seq<VarView>, n: Seq<char>) -> bool {
    exists|k: int| 0 <= k < s.len() && (#[trigger] s[k]).name == n
}

/// The variable at `j` repeats the name of an earlier variable.
pub open spec fn duplicate_at(s: Seq<VarView>, j: int) -> bool {
    exists|i: int| 0 <= i < j && (#[trigger] s[i]).name == s[j].name
}

/// The variable at `j` disagrees with the first variable on length.
pub open spec fn mismatch_at(s: Seq<VarView>, j: int) -> bool {
    s[j].vals.len() != s[0].vals.len()
}

/// The first violation that a scan of the variables from position `j` on
/// reports: a repeated name counts before a length mismatch at the same
/// position, and the earliest flawed position decides.
pub open spec fn scan_error(s: Seq<VarView>, j: int) -> Option<SolvableProblemError>
    decreases s.len() - j,
{
    if j >= s.len() {
        None
    } else if duplicate_at(s, j) {
        Some(SolvableProblemError::RedefinitionVariable)
    } else if mismatch_at(s, j) {
        Some(SolvableProblemError::VariableSizeMismatch)
    } else {
        scan_error(s, j + 1)
    }
}

/// The error that defining a problem from the given variables reports, or
/// `None` when the list is accepted.
pub open spec fn define_error(s: Seq<VarView>) -> Option<SolvableProblemError> {
    if s.len() == 0 {
        Some(SolvableProblemError::Empty)
    } else {
        scan_error(s, 0)
    }
}

/// Row `i` of the normalized criteria matrix: the `i`-th rescaled value of
/// every variable, in stored (name) order.
pub open spec fn normalized_row(s: Seq<VarView>, i: int) -> Seq<u64> {
    Seq::new(s.len(), |j: int| autorescale_spec(s[j].vals, s[j].inverted)[i])
}

/// Every entry of an inserted sequence is the inserted variable or one of
/// the old ones.
proof fn lemma_insert_membership(s: Seq<VarView>, v: VarView)
    ensures
        forall|k: int|
            0 <= k < insert_by_name(s, v).len() ==> (#[trigger] insert_by_name(s, v)[k] == v
                || exists|j: int| 0 <= j < s.len() && s[j] == insert_by_name(s, v)[k]),
    decreases s.len(),
{
    if s.len() == 0 {
    } else if lex_lt(v.name, s[0].name) {
    } else if v.name == s[0].name {
        assert forall|k: int| 0 <= k < insert_by_name(s, v).len() implies (
        #[trigger] insert_by_name(s, v)[k] == v || exists|j: int|
            0 <= j < s.len() && s[j] == insert_by_name(s, v)[k]) by {
            if k > 0 {
                assert(s[k] == insert_by_name(s, v)[k]);
            }
        }
    } else {
        lemma_insert_membership(s.drop_first(), v);
        let r = insert_by_name(s, v);
        assert forall|k: int| 0 <= k < r.len() implies (#[trigger] r[k] == v || exists|j: int|
            0 <= j < s.len() && s[j] == r[k]) by {
            if k > 0 {
                let rr = insert_by_name(s.drop_first(), v);
                assert(r[k] == rr[k - 1]);
                if rr[k - 1] != v {
                    let j = choose|j: int|
                        0 <= j < s.drop_first().len() && s.drop_first()[j] == rr[k - 1];
                    assert(s[j + 1] == r[k]);
                }
            }
        }
    }
}

/// Insertion into a name-ordered sequence keeps it name-ordered.
proof fn lemma_insert_sorted(s: Seq<VarView>, v: VarView)
    requires
        sorted_by_name(s),
    ensures
        sorted_by_name(insert_by_name(s, v)),
    decreases s.len(),
{
    let r = insert_by_name(s, v);
    if s.len() == 0 {
    } else if lex_lt(v.name, s[0].name) {
        assert forall|i: int, j: int| 0 <= i < j < r.len() implies lex_lt(
            (#[trigger] r[i]).name,
            (#[trigger] r[j]).name,
        ) by {
            if i == 0 {
                assert(r[j] == s[j - 1]);
                if j > 1 {
                    assert(lex_lt(s[0].name, s[j - 1].name));
                    crate::variables::name::lemma_lex_trans(v.name, s[0].name, s[j - 1].name);
                }
            } else {
                assert(r[i] == s[i - 1] && r[j] == s[j - 1]);
            }
        }
    } else if v.name == s[0].name {
        assert forall|i: int, j: int| 0 <= i < j < r.len() implies lex_lt(
            (#[trigger] r[i]).name,
            (#[trigger] r[j]).name,
        ) by {
            if i == 0 {
                assert(r[j] == s[j]);
            } else {
                assert(r[i] == s[i] && r[j] == s[j]);
            }
        }
    } else {
        if !lex_lt(s[0].name, v.name) {
            lemma_lex_connected(v.name, s[0].name);
            assert(false);
        }
        let rest = s.drop_first();
        assert(sorted_by_name(rest)) by {
            assert forall|i: int, j: int| 0 <= i < j < rest.len() implies lex_lt(
                (#[trigger] rest[i]).name,
                (#[trigger] rest[j]).name,
            ) by {
                assert(rest[i] == s[i + 1] && rest[j] == s[j + 1]);
            }
        }
        lemma_insert_sorted(rest, v);
        lemma_insert_membership(rest, v);
        let rr = insert_by_name(rest, v);
        assert forall|i: int, j: int| 0 <= i < j < r.len() implies lex_lt(
            (#[trigger] r[i]).name,
            (#[trigger] r[j]).name,
        ) by {
            if i == 0 {
                assert(r[j] == rr[j - 1]);
                if rr[j - 1] == v {
                    assert(lex_lt(s[0].name, v.name));
                } else {
                    let q = choose|q: int| 0 <= q < rest.len() && rest[q] == rr[j - 1];
                    assert(rest[q] == s[q + 1]);
                    assert(lex_lt(s[0].name, s[q + 1].name));
                }
            } else {
                assert(r[i] == rr[i - 1] && r[j] == rr[j - 1]);
            }
        }
    }
}

/// A name occurs after an insertion exactly when it is the inserted name
/// or occurred before.
proof fn lemma_insert_names(s: Seq<VarView>, v: VarView, n: Seq<char>)
    ensures
        has_name(insert_by_name(s, v), n) <==> (n == v.name || has_name(s, n)),
    decreases s.len(),
{
    let r = insert_by_name(s, v);
    if s.len() == 0 {
        assert(r[0] == v);
    } else if lex_lt(v.name, s[0].name) {
        assert(r[0] == v);
        assert forall|k: int| 0 <= k < s.len() implies s[k] == r[k + 1] by {}
        if has_name(r, n) && n != v.name {
            let k = choose|k: int| 0 <= k < r.len() && r[k].name == n;
            assert(s[k - 1] == r[k]);
        }
    } else if v.name == s[0].name {
        assert(r[0] == v);
        assert forall|k: int| 1 <= k < s.len() implies s[k] == r[k] by {}
        if has_name(s, n) && n != v.name {
            let k = choose|k: int| 0 <= k < s.len() && s[k].name == n;
            assert(r[k].name == n);
        }
        if has_name(r, n) && n != v.name {
            let k = choose|k: int| 0 <= k < r.len() && r[k].name == n;
            assert(s[k] == r[k]);
        }
    } else {
        lemma_insert_names(s.drop_first(), v, n);
        let rr = insert_by_name(s.drop_first(), v);
        assert(r[0] == s[0]);
        assert forall|k: int| 0 <= k < rr.len() implies rr[k] == r[k + 1] by {}
        assert forall|k: int| 1 <= k < s.len() implies s[k] == s.drop_first()[k - 1] by {}
        if has_name(s, n) && n != v.name && s[0].name != n {
            let k = choose|k: int| 0 <= k < s.len() && s[k].name == n;
            assert(s.drop_first()[k - 1].name == n);
            assert(has_name(s.drop_first(), n));
        }
        if has_name(r, n) && n != v.name && s[0].name != n {
            let k = choose|k: int| 0 <= k < r.len() && r[k].name == n;
            assert(rr[k - 1].name == n);
            assert(has_name(rr, n));
            let q = choose|q: int| 0 <= q < s.drop_first().len() && s.drop_first()[q].name == n;
            assert(s[q + 1].name == n);
        }
        if has_name(s.drop_first(), n) {
            let q = choose|q: int| 0 <= q < s.drop_first().len() && s.drop_first()[q].name == n;
            assert(s[q + 1].name == n);
        }
        if has_name(rr, n) {
            let q = choose|q: int| 0 <= q < rr.len() && rr[q].name == n;
            assert(r[q + 1].name == n);
        }
    }
}

/// Inserting a fresh name grows the sequence by one.
proof fn lemma_insert_len_fresh(s: Seq<VarView>, v: VarView)
    requires
        !has_name(s, v.name),
    ensures
        insert_by_name(s, v).len() == s.len() + 1,
    decreases s.len(),
{
    if s.len() == 0 {
    } else if lex_lt(v.name, s[0].name) {
    } else if v.name == s[0].name {
        assert(s[0].name == v.name);
        assert(false);
    } else {
        assert forall|k: int| 0 <= k < s.drop_first().len() implies s.drop_first()[k] == s[k
            + 1] by {}
        if has_name(s.drop_first(), v.name) {
            let q = choose|q: int|
                0 <= q < s.drop_first().len() && s.drop_first()[q].name == v.name;
            assert(s[q + 1].name == v.name);
        }
        lemma_insert_len_fresh(s.drop_first(), v);
    }
}

/// The position-based characterization of [`insert_by_name`]: inserting
/// before the first entry whose name is not smaller, replacing it when the
/// names are equal.
proof fn lemma_insert_at(s: Seq<VarView>, v: VarView, idx: int)
    requires
        0 <= idx <= s.len(),
        forall|j: int| 0 <= j < idx ==> lex_lt((#[trigger] s[j]).name, v.name),
        idx < s.len() ==> !lex_lt(s[idx].name, v.name),
    ensures
        idx < s.len() && s[idx].name == v.name ==> insert_by_name(s, v) =~= s.update(idx, v),
        !(idx < s.len() && s[idx].name == v.name) ==> insert_by_name(s, v) =~= s.insert(idx, v),
    decreases s.len(),
{
    if s.len() == 0 {
        assert(insert_by_name(s, v) =~= s.insert(0, v));
    } else if idx == 0 {
        if lex_lt(v.name, s[0].name) {
            lemma_lex_asym_from(v.name, s[0].name, 0);
            assert(insert_by_name(s, v) =~= s.insert(0, v));
        } else {
            lemma_lex_connected(v.name, s[0].name);
            assert(v.name == s[0].name);
            assert(insert_by_name(s, v) =~= s.update(0, v));
        }
    } else {
        lemma_lex_asym_from(s[0].name, v.name, 0);
        let rest = s.drop_first();
        assert forall|k: int| 0 <= k < rest.len() implies rest[k] == s[k + 1] by {}
        lemma_insert_at(rest, v, idx - 1);
        if idx < s.len() && s[idx].name == v.name {
            assert(insert_by_name(s, v) =~= seq![s[0]] + rest.update(idx - 1, v));
            assert(seq![s[0]] + rest.update(idx - 1, v) =~= s.update(idx, v));
        } else {
            assert(insert_by_name(s, v) =~= seq![s[0]] + rest.insert(idx - 1, v));
            assert(seq![s[0]] + rest.insert(idx - 1, v) =~= s.insert(idx, v));
        }
    }
}

/// A scan that reports nothing from some position on finds no repeated
/// name and no length mismatch there.
proof fn lemma_scan_none(s: Seq<VarView>, j: int)
    requires
        0 <= j,
    ensures
        scan_error(s, j) is None <==> (forall|k: int|
            j <= k < s.len() ==> !duplicate_at(s, k) && !mismatch_at(s, k)),
    decreases s.len() - j,
{
    if j < s.len() {
        lemma_scan_none(s, j + 1);
    }
}

/// A scan reports only a repeated name or a length mismatch.
proof fn lemma_scan_not_empty(s: Seq<VarView>, j: int)
    requires
        0 <= j,
    ensures
        scan_error(s, j) != Some(SolvableProblemError::Empty),
    decreases s.len() - j,
{
    if j < s.len() {
        lemma_scan_not_empty(s, j + 1);
    }
}

/// The validated problem: variables keyed by name, held in ascending name
/// order so that the criteria matrix has a deterministic column order.
#[derive(Debug)]
pub struct SolvableProblem {
    variables: Vec<Variable>,
}

impl View for SolvableProblem {
    type V = Seq<VarView>;

    closed spec fn view(&self) -> Seq<VarView> {
        views_of(self.variables@)
    }
}

impl SolvableProblem {
    /// The stored variables are in strictly ascending name order and all
    /// hold validated values: constructors establish this and every method
    /// preserves it.
    pub open spec fn wf(self) -> bool {
        sorted_by_name(self@) && entries_valid(self@)
    }

    /// An empty problem: the internal assembly primitive that
    /// [`SolvableProblem::define`] fills; an empty problem is not
    /// solvable.
    pub fn new() -> (r: SolvableProblem)
        ensures
            r@ == Seq::<VarView>::empty(),
            r.wf(),
    {
        let r = SolvableProblem { variables: Vec::new() };
        proof {
            assert(r@ =~= Seq::<VarView>::empty());
        }
        r
    }

    /// The position at which a name would be inserted: the index of the
    /// first variable whose name is not smaller.
    #[verifier::loop_isolation(false)]
    fn insert_position(&self, name: &Name) -> (idx: usize)
        ensures
            idx <= self@.len(),
            forall|j: int| 0 <= j < idx ==> lex_lt((#[trigger] self@[j]).name, name@),
            idx < self@.len() ==> !lex_lt(self@[idx as int].name, name@),
    {
        let n = self.variables.len();
        for i in 0..n
            invariant
                forall|j: int| 0 <= j < i ==> lex_lt((#[trigger] self@[j]).name, name@),
        {
            let c = self.variables[i].name().cmp_text(name);
            if !matches!(c, core::cmp::Ordering::Less) {
                return i;
            }
        }
        n
    }

    /// Whether some stored variable has the given name.
    #[verifier::loop_isolation(false)]
    fn contains_name(&self, name: &Name) -> (r: bool)
        ensures
            r == has_name(self@, name@),
    {
        let n = self.variables.len();
        for i in 0..n
            invariant
                forall|j: int| 0 <= j < i ==> (#[trigger] self@[j]).name != name@,
        {
            let c = self.variables[i].name().cmp_text(name);
            if matches!(c, core::cmp::Ordering::Equal) {
                proof {
                    assert(has_name(self@, name@)) by {
                        assert((self@[i as int]).name == name@);
                    }
                }
                return true;
            }
        }
        false
    }

    /// Inserts a variable under its name, replacing a variable that
    /// already carries the same name, and returns the new number of
    /// variables.
    pub fn add_variable(&mut self, variable: Variable) -> (r: usize)
        requires
            old(self).wf(),
        ensures
            final (self)@ == insert_by_name(old(self)@, variable@),
            r == final (self)@.len(),
            final (self).wf(),
    {
        {
            let vv = variable.values();
            proof {
                use_type_invariant(vv);
            }
        }
        let ghost s = self@;
        let idx = self.insert_position(variable.name());
        proof {
            lemma_insert_at(s, variable@, idx as int);
        }
        let replace = if idx < self.variables.len() {
            let c = self.variables[idx].name().cmp_text(variable.name());
            matches!(c, core::cmp::Ordering::Equal)
        } else {
            false
        };
        if replace {
            self.variables.set(idx, variable);
            proof {
                assert(self@ =~= s.update(idx as int, variable@));
            }
        } else {
            proof {
                if idx < s.len() && s[idx as int].name == variable@.name {
                    assert(false);
                }
            }
            self.variables.insert(idx, variable);
            proof {
                assert(self@ =~= s.insert(idx as int, variable@));
            }
        }
        proof {
            lemma_insert_sorted(s, variable@);
            lemma_insert_membership(s, variable@);
            assert(entries_valid(self@)) by {
                assert forall|k: int| 0 <= k < self@.len() implies valid_values(
                    (#[trigger] self@[k]).vals,
                ) by {
                    if self@[k] != variable@ {
                        let j = choose|j: int| 0 <= j < s.len() && s[j] == self@[k];
                    }
                }
            }
        }
        self.variables.len()
    }

    /// Validates a list of variables into a problem. The list is accepted
    /// exactly when it is non-empty, no name repeats, and all variables
    /// agree on length; the variables are then stored in ascending name
    /// order. A flawed list reports the violation that a scan in given
    /// order meets first: an empty list `Empty`, a repeated name
    /// `RedefinitionVariable`, a length disagreement with the first
    /// variable `VariableSizeMismatch`.
    #[verifier::loop_isolation(false)]
    pub fn define(variables: Vec<Variable>) -> (r: Result<SolvableProblem, SolvableProblemError>)
        ensures
            r is Ok <==> define_error(views_of(variables@)) is None,
            r matches Err(e) ==> Some(e) == define_error(views_of(variables@)),
            r matches Err(e) ==> (e == SolvableProblemError::Empty <==> variables@.len() == 0),
            r matches Ok(p) ==> p@ == sort_by_name(views_of(variables@)) && p@.len()
                == variables@.len() && valid_problem(p@) && p.wf(),
            r is Ok <==> (variables@.len() > 0 && (forall|k: int|
                0 <= k < variables@.len() ==> !duplicate_at(views_of(variables@), k)
                    && !mismatch_at(views_of(variables@), k))),
    {
        let ghost orig = views_of(variables@);
        let n = variables.len();
        if n == 0 {
            return Err(SolvableProblemError::Empty);
        }
        proof {
            lemma_scan_none(orig, 0);
            lemma_scan_not_empty(orig, 0);
        }
        let mut problem = SolvableProblem::new();
        let first_len = variables[0].values().values().len();
        let mut vars = variables;
        let mut i: usize = 0;
        proof {
            assert(orig.take(0) =~= Seq::<VarView>::empty());
        }
        while vars.len() > 0
            invariant
                i + vars@.len() == n,
                n == orig.len(),
                forall|k: int| 0 <= k < vars@.len() ==> (#[trigger] vars@[k])@ == orig[i + k],
                problem.wf(),
                problem@ == sort_by_name(orig.take(i as int)),
                problem@.len() == i,
                forall|k: int| 0 <= k < i ==> !duplicate_at(orig, k) && !mismatch_at(orig, k),
                scan_error(orig, 0) == scan_error(orig, i as int),
                first_len == orig[0].vals.len(),
                forall|k: int|
                    0 <= k < problem@.len() ==> (#[trigger] problem@[k]).vals.len() == first_len,
                forall|nm: Seq<char>|
                    #[trigger] has_name(problem@, nm) <==> has_name(orig.take(i as int), nm),
            decreases vars@.len(),
        {
            let v = vars.remove(0);
            assert(v@ == orig[i as int]);
            if problem.contains_name(v.name()) {
                proof {
                    let k = choose|k: int|
                        0 <= k < orig.take(i as int).len() && orig.take(i as int)[k].name
                            == v@.name;
                    assert(orig[k].name == orig[i as int].name);
                    assert(duplicate_at(orig, i as int));
                    assert(scan_error(orig, i as int) == Some(
                        SolvableProblemError::RedefinitionVariable,
                    ));
                }
                return Err(SolvableProblemError::RedefinitionVariable);
            }
            let cur_len = v.values().values().len();
            if cur_len != first_len {
                proof {
                    assert(!duplicate_at(orig, i as int)) by {
                        if duplicate_at(orig, i as int) {
                            let k = choose|k: int|
                                0 <= k < i && (#[trigger] orig[k]).name == orig[i as int].name;
                            assert(orig.take(i as int)[k].name == v@.name);
                            assert(has_name(orig.take(i as int), v@.name));
                        }
                    }
                    assert(mismatch_at(orig, i as int));
                    assert(scan_error(orig, i as int) == Some(
                        SolvableProblemError::VariableSizeMismatch,
                    ));
                }
                return Err(SolvableProblemError::VariableSizeMismatch);
            }
            let ghost before = problem@;
            let _count = problem.add_variable(v);
            proof {
                assert(!duplicate_at(orig, i as int)) by {
                    if duplicate_at(orig, i as int) {
                        let k = choose|k: int|
                            0 <= k < i && (#[trigger] orig[k]).name == orig[i as int].name;
                        assert(orig.take(i as int)[k].name == v@.name);
                        assert(has_name(orig.take(i as int), v@.name));
                    }
                }
                assert(orig.take(i + 1).drop_last() =~= orig.take(i as int));
                assert(orig.take(i + 1).last() == orig[i as int]);
                assert(problem@ == sort_by_name(orig.take(i + 1)));
                lemma_insert_len_fresh(before, v@);
                lemma_insert_membership(before, v@);
                assert forall|k: int| 0 <= k < problem@.len() implies (
                #[trigger] problem@[k]).vals.len() == first_len by {
                    if problem@[k] != v@ {
                        let j = choose|j: int| 0 <= j < before.len() && before[j] == problem@[k];
                    }
                }
                assert forall|nm: Seq<char>| #[trigger]
                    has_name(problem@, nm) <==> has_name(orig.take(i + 1), nm) by {
                    lemma_insert_names(before, v@, nm);
                    if has_name(orig.take(i + 1), nm) {
                        let k = choose|k: int|
                            0 <= k < i + 1 && (#[trigger] orig.take(i + 1)[k]).name == nm;
                        if k < i {
                            assert(orig.take(i as int)[k].name == nm);
                            assert(has_name(orig.take(i as int), nm));
                        }
                    }
                    if has_name(orig.take(i as int), nm) {
                        let k = choose|k: int|
                            0 <= k < i && (#[trigger] orig.take(i as int)[k]).name == nm;
                        assert(orig.take(i + 1)[k].name == nm);
                    }
                }
            }
            i = i + 1;
        }
        proof {
            assert(i == n);
            assert(orig.take(n as int) =~= orig);
            assert(scan_error(orig, n as int) is None);
        }
        Ok(problem)
    }

    /// The normalized criteria matrix, alternative-major: row `i` holds
    /// the `i`-th rescaled value of every variable, in ascending name
    /// order, and every entry is a finite, non-negative double.
    #[verifier::loop_isolation(false)]
    pub fn get_problem_matrix(&self) -> (r: Vec<Vec<u64>>)
        requires
            self.wf(),
            valid_problem(self@),
        ensures
            r@.len() == self@[0].vals.len(),
            forall|i: int| 0 <= i < r@.len() ==> (#[trigger] r@[i])@ == normalized_row(self@, i),
            forall|i: int| 0 <= i < r@.len() ==> all_finite_nonneg((#[trigger] r@[i])@),
    {
        proof {
            assert(crate::ieee::mag_bits(0u64) == 0) by (bit_vector);
        }
        let nvars = self.variables.len();
        let n_alt = self.variables[0].values().values().len();
        let mut cols: Vec<Vec<u64>> = Vec::new();
        for j in 0..nvars
            invariant
                cols@.len() == j,
                forall|q: int|
                    0 <= q < j ==> (#[trigger] cols@[q])@ == autorescale_spec(
                        self@[q].vals,
                        self@[q].inverted,
                    ),
                forall|q: int| 0 <= q < j ==> (#[trigger] cols@[q])@.len() == n_alt,
                forall|q: int| 0 <= q < j ==> all_finite_nonneg((#[trigger] cols@[q])@),
        {
            let col = self.variables[j].rescale();
            let colv = col.into_vec();
            proof {
                assert(self@[j as int].vals.len() == n_alt);
                assert(all_finite_nonneg(colv@));
            }
            cols.push(colv);
        }
        let mut rows: Vec<Vec<u64>> = Vec::new();
        for i in 0..n_alt
            invariant
                rows@.len() == i,
                forall|p: int|
                    0 <= p < i ==> (#[trigger] rows@[p])@ == normalized_row(self@, p),
                forall|p: int| 0 <= p < i ==> all_finite_nonneg((#[trigger] rows@[p])@),
        {
            let mut row: Vec<u64> = Vec::new();
            for j in 0..nvars
                invariant
                    row@.len() == j,
                    forall|q: int|
                        0 <= q < j ==> #[trigger] row@[q] == normalized_row(self@, i as int)[q],
                    forall|q: int|
                        0 <= q < j ==> is_finite_bits(#[trigger] row@[q]) && !sign_bits(
                            row@[q],
                        ),
            {
                let e = cols[j][i];
                row.push(e);
            }
            proof {
                assert(row@ =~= normalized_row(self@, i as int));
            }
            rows.push(row);
        }
        rows
    }

    /// The index of the best alternative: the row of the normalized
    /// criteria matrix with the smallest Euclidean norm, ties broken to
    /// the first occurrence. Rows are indexed as the alternatives were
    /// supplied.
    pub fn solve(&self) -> (r: usize)
        requires
            self.wf(),
            valid_problem(self@),
        ensures
            r < self@[0].vals.len(),
            forall|j: int|
                0 <= j < self@[0].vals.len() ==> f_le(
                    l2_norm_spec(normalized_row(self@, r as int)),
                    #[trigger] l2_norm_spec(normalized_row(self@, j)),
                ),
            forall|j: int|
                0 <= j < r ==> f_lt(
                    l2_norm_spec(normalized_row(self@, r as int)),
                    #[trigger] l2_norm_spec(normalized_row(self@, j)),
                ),
    {
        let matrix = self.get_problem_matrix();
        let best = index_of_best_vector(&matrix);
        proof {
            assert forall|j: int| 0 <= j < self@[0].vals.len() implies f_le(
                l2_norm_spec(normalized_row(self@, best as int)),
                #[trigger] l2_norm_spec(normalized_row(self@, j)),
            ) by {
                assert(matrix@[j]@ == normalized_row(self@, j));
                assert(f_le(l2_norm_spec(matrix@[best as int]@), l2_norm_spec(matrix@[j]@)));
            }
            assert forall|j: int| 0 <= j < best implies f_lt(
                l2_norm_spec(normalized_row(self@, best as int)),
                #[trigger] l2_norm_spec(normalized_row(self@, j)),
            ) by {
                assert(matrix@[j]@ == normalized_row(self@, j));
                assert(f_lt(l2_norm_spec(matrix@[best as int]@), l2_norm_spec(matrix@[j]@)));
            }
        }
        best
    }
}

/// Selection is idempotent: the index that [`SolvableProblem::solve`]
/// characterizes — the first row of the normalized matrix with the
/// smallest norm — is unique, so solving the same problem twice yields
/// the same index.
pub proof fn lemma_solve_deterministic(s: Seq<VarView>, a: int, b: int)
    requires
        valid_problem(s),
        0 <= a < s[0].vals.len(),
        0 <= b < s[0].vals.len(),
        forall|j: int|
            0 <= j < s[0].vals.len() ==> f_le(
                l2_norm_spec(normalized_row(s, a)),
                #[trigger] l2_norm_spec(normalized_row(s, j)),
            ),
        forall|j: int|
            0 <= j < a ==> f_lt(
                l2_norm_spec(normalized_row(s, a)),
                #[trigger] l2_norm_spec(normalized_row(s, j)),
            ),
        forall|j: int|
            0 <= j < s[0].vals.len() ==> f_le(
                l2_norm_spec(normalized_row(s, b)),
                #[trigger] l2_norm_spec(normalized_row(s, j)),
            ),
        forall|j: int|
            0 <= j < b ==> f_lt(
                l2_norm_spec(normalized_row(s, b)),
                #[trigger] l2_norm_spec(normalized_row(s, j)),
            ),
    ensures
        a == b,
{
    if a < b {
        assert(f_lt(l2_norm_spec(normalized_row(s, b)), l2_norm_spec(normalized_row(s, a))));
        assert(f_le(l2_norm_spec(normalized_row(s, a)), l2_norm_spec(normalized_row(s, b))));
    }
    if b < a {
        assert(f_lt(l2_norm_spec(normalized_row(s, a)), l2_norm_spec(normalized_row(s, b))));
        assert(f_le(l2_norm_spec(normalized_row(s, b)), l2_norm_spec(normalized_row(s, a))));
    }
}

} // verus!
