//! DC labels: a secrecy and an integrity component, each either `False` or a
//! conjunction of clauses, each clause a disjunction of principals.
use vstd::prelude::*;

verus! {

/// A set of principals as a value: the principals are the strings' contents.
pub type PrincipalSet = Set<Seq<char>>;

/// A formula as a value: its set of clauses.
pub type FormulaSet = Set<PrincipalSet>;

/// A component as a value: `None` stands for `False`, `Some(f)` for the
/// conjunction of the clauses in `f`.
pub type ComponentModel = Option<FormulaSet>;

/// A disjunction of principals.
pub struct Clause(pub Vec<String>);

/// One side of a label: `False`, the top of its lattice, or a conjunction of
/// clauses.
pub enum Component {
    DCFalse,
    DCFormula(Vec<Clause>),
}

/// A label: its secrecy and its integrity.
pub struct DCLabel {
    pub secrecy: Component,
    pub integrity: Component,
}

/// The contents of a sequence of strings.
pub open spec fn names(v: Seq<String>) -> Seq<Seq<char>> {
    v.map_values(|s: String| s@)
}

impl View for Clause {
    type V = PrincipalSet;

    open spec fn view(&self) -> PrincipalSet {
        names(self.0@).to_set()
    }
}

/// The set of clauses that a sequence of clauses holds.
pub open spec fn clauses_view(v: Seq<Clause>) -> FormulaSet {
    Set::new(|c: PrincipalSet| exists|k: int| 0 <= k < v.len() && #[trigger] v[k]@ == c)
}

impl View for Component {
    type V = ComponentModel;

    open spec fn view(&self) -> ComponentModel {
        match self {
            Component::DCFalse => None,
            Component::DCFormula(v) => Some(clauses_view(v@)),
        }
    }
}

impl View for DCLabel {
    type V = (ComponentModel, ComponentModel);

    open spec fn view(&self) -> (ComponentModel, ComponentModel) {
        (self.secrecy@, self.integrity@)
    }
}

/// `a` is a strict subset of `b`.
pub open spec fn strict_subset(a: PrincipalSet, b: PrincipalSet) -> bool {
    a.subset_of(b) && a != b
}

/// The clauses of `f` that no other clause of `f` is strictly contained in.
pub open spec fn minimize(f: FormulaSet) -> FormulaSet {
    f.filter(|c: PrincipalSet| !exists|d: PrincipalSet| f.contains(d) && strict_subset(d, c))
}

/// No clause of `f` is a strict superset of another clause of `f`.
pub open spec fn is_minimal(f: FormulaSet) -> bool {
    forall|c: PrincipalSet, d: PrincipalSet|
        f.contains(c) && f.contains(d) ==> !#[trigger] strict_subset(d, c)
}

/// Every clause of `f` has finitely many principals.
pub open spec fn finite_clauses(f: FormulaSet) -> bool {
    forall|c: PrincipalSet| #[trigger] f.contains(c) ==> c.finite()
}

/// A component as the label algebra keeps it: `False`, or a minimal formula
/// of finite clauses.
pub open spec fn component_wf(c: ComponentModel) -> bool {
    match c {
        None => true,
        Some(f) => is_minimal(f) && finite_clauses(f),
    }
}

/// A component that is `False` or whose clauses are finite, as those of
/// every component value are.
pub open spec fn component_finite(c: ComponentModel) -> bool {
    match c {
        None => true,
        Some(f) => finite_clauses(f),
    }
}

/// A label whose components' clauses are finite.
pub open spec fn label_finite(l: (ComponentModel, ComponentModel)) -> bool {
    component_finite(l.0) && component_finite(l.1)
}

/// A label both of whose components are well formed.
pub open spec fn label_wf(l: (ComponentModel, ComponentModel)) -> bool {
    component_wf(l.0) && component_wf(l.1)
}

/// The join of two components: `False` if either is, else the union of
/// their clauses without those that strictly contain another.
pub open spec fn join_spec(a: ComponentModel, b: ComponentModel) -> ComponentModel {
    match (a, b) {
        (Some(x), Some(y)) => Some(minimize(x.union(y))),
        _ => None,
    }
}

/// The least upper bound of two labels, side by side.
pub open spec fn lub_spec(
    a: (ComponentModel, ComponentModel),
    b: (ComponentModel, ComponentModel),
) -> (ComponentModel, ComponentModel) {
    (join_spec(a.0, b.0), join_spec(a.1, b.1))
}

/// The public label: the empty conjunction on both sides.
pub open spec fn public_spec() -> (ComponentModel, ComponentModel) {
    (Some(Set::empty()), Some(Set::empty()))
}

impl Clause {
    /// A clause of the given principals.
    pub fn new(principals: Vec<String>) -> (r: Clause)
        ensures
            r.0@ == principals@,
    {
        Clause(principals)
    }

    /// A copy of this clause, principal by principal.
    pub fn duplicate(&self) -> (r: Clause)
        ensures
            r@ == self@,
            r.0@.len() == self.0@.len(),
            forall|k: int| 0 <= k < self.0@.len() ==> #[trigger] r.0@[k]@ == self.0@[k]@,
    {
        let mut v: Vec<String> = Vec::new();
        let mut i: usize = 0;
        while i < self.0.len()
            invariant
                i <= self.0@.len(),
                v@.len() == i,
                forall|k: int| 0 <= k < i ==> #[trigger] v@[k]@ == self.0@[k]@,
            decreases self.0@.len() - i,
        {
            v.push(self.0[i].clone());
            i = i + 1;
        }
        let r = Clause(v);
        assert(names(r.0@) =~= names(self.0@));
        r
    }

    /// Whether `p` is one of this clause's principals.
    pub fn contains(&self, p: &String) -> (r: bool)
        ensures
            r == self@.contains(p@),
    {
        let mut i: usize = 0;
        while i < self.0.len()
            invariant
                i <= self.0@.len(),
                forall|k: int| 0 <= k < i ==> #[trigger] self.0@[k]@ != p@,
            decreases self.0@.len() - i,
        {
            if self.0[i] == *p {
                proof {
                    assert(names(self.0@)[i as int] == p@);
                }
                return true;
            }
            i = i + 1;
        }
        proof {
            if self@.contains(p@) {
                let k = choose|k: int|
                    0 <= k < self.0@.len() && #[trigger] names(self.0@)[k] == p@;
                assert(self.0@[k]@ == p@);
            }
        }
        false
    }

    /// Whether every principal of this clause is one of `other`'s.
    pub fn implies(&self, other: &Clause) -> (r: bool)
        ensures
            r == self@.subset_of(other@),
    {
        let mut i: usize = 0;
        while i < self.0.len()
            invariant
                i <= self.0@.len(),
                forall|k: int| 0 <= k < i ==> other@.contains(#[trigger] self.0@[k]@),
            decreases self.0@.len() - i,
        {
            if !other.contains(&self.0[i]) {
                proof {
                    assert(names(self.0@)[i as int] == self.0@[i as int]@);
                    assert(self@.contains(self.0@[i as int]@));
                }
                return false;
            }
            i = i + 1;
        }
        proof {
            assert forall|p: Seq<char>| self@.contains(p) implies other@.contains(p) by {
                let k = choose|k: int|
                    0 <= k < self.0@.len() && #[trigger] names(self.0@)[k] == p;
                assert(self.0@[k]@ == p);
            }
        }
        true
    }
}

/// Whether `c` is strictly contained in `d`.
fn strictly_implies(c: &Clause, d: &Clause) -> (r: bool)
    ensures
        r == strict_subset(c@, d@),
{
    let sub = c.implies(d);
    let sup = d.implies(c);
    if sub && sup {
        assert(c@ =~= d@);
    }
    sub && !sup
}

/// Whether some clause of `v` has the same principals as `c`.
fn holds_clause(v: &Vec<Clause>, c: &Clause) -> (r: bool)
    ensures
        r == clauses_view(v@).contains(c@),
{
    let mut i: usize = 0;
    while i < v.len()
        invariant
            i <= v@.len(),
            forall|k: int| 0 <= k < i ==> #[trigger] v@[k]@ != c@,
        decreases v@.len() - i,
    {
        if v[i].implies(c) && c.implies(&v[i]) {
            assert(v@[i as int]@ =~= c@);
            return true;
        }
        i = i + 1;
    }
    false
}

/// Copies of the clauses of `a` followed by copies of those of `b`.
fn concat_clauses(a: &Vec<Clause>, b: &Vec<Clause>) -> (r: Vec<Clause>)
    ensures
        clauses_view(r@) == clauses_view(a@).union(clauses_view(b@)),
{
    let mut r: Vec<Clause> = Vec::new();
    let mut i: usize = 0;
    while i < a.len()
        invariant
            i <= a@.len(),
            r@.len() == i,
            forall|k: int| 0 <= k < i ==> #[trigger] r@[k]@ == a@[k]@,
        decreases a@.len() - i,
    {
        r.push(a[i].duplicate());
        i = i + 1;
    }
    let mut j: usize = 0;
    while j < b.len()
        invariant
            j <= b@.len(),
            r@.len() == a@.len() + j,
            forall|k: int| 0 <= k < a@.len() ==> #[trigger] r@[k]@ == a@[k]@,
            forall|k: int| 0 <= k < j ==> #[trigger] r@[a@.len() + k]@ == b@[k]@,
        decreases b@.len() - j,
    {
        r.push(b[j].duplicate());
        j = j + 1;
    }
    assert forall|c: PrincipalSet| #[trigger]
        clauses_view(r@).contains(c) <==> clauses_view(a@).union(clauses_view(b@)).contains(c) by {
        if clauses_view(r@).contains(c) {
            let k = choose|k: int| 0 <= k < r@.len() && #[trigger] r@[k]@ == c;
            if k >= a@.len() {
                let kb = k - a@.len();
                assert(r@[a@.len() + kb]@ == b@[kb]@);
                assert(b@[kb]@ == c);
            }
        }
        if clauses_view(a@).contains(c) {
            let k = choose|k: int| 0 <= k < a@.len() && #[trigger] a@[k]@ == c;
            assert(r@[k]@ == c);
        }
        if clauses_view(b@).contains(c) {
            let k = choose|k: int| 0 <= k < b@.len() && #[trigger] b@[k]@ == c;
            assert(r@[a@.len() + k]@ == c);
        }
    }
    assert(clauses_view(r@) =~= clauses_view(a@).union(clauses_view(b@)));
    r
}

/// The clauses of `all` that no clause of `all` is strictly contained in,
/// each once.
fn minimal_clauses(all: &Vec<Clause>) -> (r: Vec<Clause>)
    ensures
        clauses_view(r@) == minimize(clauses_view(all@)),
{
    let ghost u = clauses_view(all@);
    let mut r: Vec<Clause> = Vec::new();
    let mut i: usize = 0;
    while i < all.len()
        invariant
            i <= all@.len(),
            u == clauses_view(all@),
            forall|c: PrincipalSet| #[trigger]
                clauses_view(r@).contains(c) <==> (minimize(u).contains(c) && exists|k: int|
                    0 <= k < i && #[trigger] all@[k]@ == c),
        decreases all@.len() - i,
    {
        let mut keep = true;
        let mut j: usize = 0;
        while j < all.len()
            invariant
                i < all@.len(),
                j <= all@.len(),
                keep == !exists|k: int| 0 <= k < j && strict_subset(#[trigger] all@[k]@, all@[i as int]@),
            decreases all@.len() - j,
        {
            if strictly_implies(&all[j], &all[i]) {
                keep = false;
            }
            j = j + 1;
        }
        let ghost c = all@[i as int]@;
        proof {
            assert(u.contains(c));
            if keep {
                assert forall|d: PrincipalSet| u.contains(d) implies !strict_subset(d, c) by {
                    let k = choose|k: int| 0 <= k < all@.len() && #[trigger] all@[k]@ == d;
                    assert(!strict_subset(all@[k]@, all@[i as int]@));
                }
                assert(minimize(u).contains(c));
            } else {
                let k = choose|k: int| 0 <= k < all@.len() && strict_subset(#[trigger] all@[k]@, all@[i as int]@);
                assert(u.contains(all@[k]@));
                assert(!minimize(u).contains(c));
            }
        }
        if keep && !holds_clause(&r, &all[i]) {
            let ghost old_r = r@;
            r.push(all[i].duplicate());
            proof {
                assert forall|c2: PrincipalSet| #[trigger] clauses_view(r@).contains(c2)
                    <==> clauses_view(old_r).contains(c2) || c2 == c by {
                    if clauses_view(r@).contains(c2) {
                        let k = choose|k: int| 0 <= k < r@.len() && #[trigger] r@[k]@ == c2;
                        if k < old_r.len() {
                            assert(old_r[k]@ == c2);
                        }
                    }
                    if clauses_view(old_r).contains(c2) {
                        let k = choose|k: int| 0 <= k < old_r.len() && #[trigger] old_r[k]@ == c2;
                        assert(r@[k]@ == c2);
                    }
                    if c2 == c {
                        assert(r@[old_r.len() as int]@ == c2);
                    }
                }
            }
        }
        proof {
            assert forall|c2: PrincipalSet| #[trigger] clauses_view(r@).contains(c2) <==> (
            minimize(u).contains(c2) && exists|k: int| 0 <= k < i + 1 && #[trigger] all@[k]@ == c2) by {
                if exists|k: int| 0 <= k < i + 1 && #[trigger] all@[k]@ == c2 {
                    let k = choose|k: int| 0 <= k < i + 1 && #[trigger] all@[k]@ == c2;
                    if k < i {
                        assert(exists|k: int| 0 <= k < i && #[trigger] all@[k]@ == c2);
                    }
                }
                if exists|k: int| 0 <= k < i && #[trigger] all@[k]@ == c2 {
                    let k = choose|k: int| 0 <= k < i && #[trigger] all@[k]@ == c2;
                    assert(0 <= k < i + 1 && all@[k]@ == c2);
                }
            }
        }
        i = i + 1;
    }
    proof {
        assert forall|c: PrincipalSet| #[trigger] minimize(u).contains(c) implies
            exists|k: int| 0 <= k < all@.len() && #[trigger] all@[k]@ == c by {
            assert(u.contains(c));
        }
    }
    assert(clauses_view(r@) =~= minimize(u));
    r
}

/// The clauses that a sequence of clauses holds are each finite.
pub proof fn lemma_clauses_finite(v: Seq<Clause>)
    ensures
        finite_clauses(clauses_view(v)),
{
    assert forall|c: PrincipalSet| #[trigger] clauses_view(v).contains(c) implies c.finite() by {
        let k = choose|k: int| 0 <= k < v.len() && #[trigger] v[k]@ == c;
        vstd::seq_lib::seq_to_set_is_finite(names(v[k].0@));
    }
}

/// The clauses of every label value are finite.
pub proof fn lemma_label_finite(l: &DCLabel)
    ensures
        label_finite(l@),
{
    if let Component::DCFormula(v) = &l.secrecy {
        lemma_clauses_finite(v@);
    }
    if let Component::DCFormula(v) = &l.integrity {
        lemma_clauses_finite(v@);
    }
}

/// The minimal clauses of a formula are themselves a minimal formula, and are
/// finite where the formula's clauses are.
pub proof fn lemma_minimize_wf(f: FormulaSet)
    ensures
        is_minimal(minimize(f)),
        finite_clauses(f) ==> finite_clauses(minimize(f)),
{
}

proof fn lemma_strict_subset_smaller(e: PrincipalSet, d: PrincipalSet)
    requires
        d.finite(),
        strict_subset(e, d),
    ensures
        e.finite(),
        e.len() < d.len(),
{
    if forall|x: Seq<char>| d.contains(x) ==> e.contains(x) {
        assert(e =~= d);
    }
    let x = choose|x: Seq<char>| d.contains(x) && !e.contains(x);
    vstd::set_lib::lemma_len_subset(e, d.remove(x));
}

/// Below every clause of a formula of finite clauses stands a minimal one.
proof fn lemma_minimal_below(f: FormulaSet, d: PrincipalSet)
    requires
        finite_clauses(f),
        f.contains(d),
    ensures
        exists|m: PrincipalSet| minimize(f).contains(m) && m.subset_of(d),
    decreases d.len(),
{
    if minimize(f).contains(d) {
        assert(d.subset_of(d));
    } else {
        let e = choose|e: PrincipalSet| f.contains(e) && strict_subset(e, d);
        lemma_strict_subset_smaller(e, d);
        lemma_minimal_below(f, e);
        let m = choose|m: PrincipalSet| minimize(f).contains(m) && m.subset_of(e);
        assert(m.subset_of(d));
    }
}

/// Minimizing part of a union first does not change the minimized union.
proof fn lemma_minimize_absorb(x: FormulaSet, y: FormulaSet)
    requires
        finite_clauses(x),
    ensures
        minimize(minimize(x).union(y)) == minimize(x.union(y)),
{
    let lhs = minimize(minimize(x).union(y));
    let rhs = minimize(x.union(y));
    assert forall|c: PrincipalSet| lhs.contains(c) implies rhs.contains(c) by {
        if exists|d: PrincipalSet| x.union(y).contains(d) && strict_subset(d, c) {
            let d = choose|d: PrincipalSet| x.union(y).contains(d) && strict_subset(d, c);
            if !y.contains(d) {
                lemma_minimal_below(x, d);
                let m = choose|m: PrincipalSet| minimize(x).contains(m) && m.subset_of(d);
                if m == c {
                    assert(d =~= c);
                }
                assert(minimize(x).union(y).contains(m) && strict_subset(m, c));
            }
        }
    }
    assert forall|c: PrincipalSet| rhs.contains(c) implies lhs.contains(c) by {
        if x.contains(c) {
            assert(minimize(x).contains(c));
        }
    }
    assert(lhs =~= rhs);
}

/// Joining a well-formed component with itself, or with the empty
/// conjunction, gives it back; so the join of a well-formed label with itself
/// or with the public label is that label.
pub proof fn lemma_lub_idempotent(l: (ComponentModel, ComponentModel))
    requires
        label_wf(l),
    ensures
        lub_spec(l, l) == l,
        lub_spec(l, public_spec()) == l,
{
    assert forall|c: ComponentModel| component_wf(c) implies join_spec(c, c) == c && join_spec(
        c,
        Some(Set::empty()),
    ) == c by {
        if let Some(f) = c {
            assert(f.union(f) =~= f);
            assert(f.union(Set::empty()) =~= f);
            assert(minimize(f) =~= f);
        }
    }
}

/// A side that is `False` in either input is `False` in the join.
pub proof fn lemma_false_absorbs(
    a: (ComponentModel, ComponentModel),
    b: (ComponentModel, ComponentModel),
)
    ensures
        a.0 is None || b.0 is None ==> lub_spec(a, b).0 is None,
        a.1 is None || b.1 is None ==> lub_spec(a, b).1 is None,
{
}

/// No clause of a joined formula strictly contains another of its clauses.
pub proof fn lemma_join_minimal(
    a: (ComponentModel, ComponentModel),
    b: (ComponentModel, ComponentModel),
)
    ensures
        lub_spec(a, b).0 matches Some(f) ==> is_minimal(f),
        lub_spec(a, b).1 matches Some(f) ==> is_minimal(f),
{
}

/// The join does not depend on the order of its arguments.
pub proof fn lemma_lub_commutative(
    a: (ComponentModel, ComponentModel),
    b: (ComponentModel, ComponentModel),
)
    ensures
        lub_spec(a, b) == lub_spec(b, a),
{
    if let (Some(x), Some(y)) = (a.0, b.0) {
        assert(x.union(y) =~= y.union(x));
    }
    if let (Some(x), Some(y)) = (a.1, b.1) {
        assert(x.union(y) =~= y.union(x));
    }
}

proof fn lemma_join_associative(a: ComponentModel, b: ComponentModel, c: ComponentModel)
    requires
        component_finite(a),
        component_finite(b),
        component_finite(c),
    ensures
        join_spec(join_spec(a, b), c) == join_spec(a, join_spec(b, c)),
{
    if let (Some(x), Some(y), Some(z)) = (a, b, c) {
        lemma_minimize_absorb(x.union(y), z);
        lemma_minimize_absorb(y.union(z), x);
        assert(x.union(y).union(z) =~= y.union(z).union(x));
        assert(minimize(y.union(z)).union(x) =~= x.union(minimize(y.union(z))));
    }
}

/// Labels may be joined in any grouping.
pub proof fn lemma_lub_associative(
    a: (ComponentModel, ComponentModel),
    b: (ComponentModel, ComponentModel),
    c: (ComponentModel, ComponentModel),
)
    requires
        label_finite(a),
        label_finite(b),
        label_finite(c),
    ensures
        lub_spec(lub_spec(a, b), c) == lub_spec(a, lub_spec(b, c)),
{
    lemma_join_associative(a.0, b.0, c.0);
    lemma_join_associative(a.1, b.1, c.1);
}

/// A copy of each clause of `v`.
fn duplicate_clauses(v: &Vec<Clause>) -> (r: Vec<Clause>)
    ensures
        clauses_view(r@) == clauses_view(v@),
{
    let e: Vec<Clause> = Vec::new();
    let r = concat_clauses(v, &e);
    assert(clauses_view(e@) =~= Set::empty());
    assert(clauses_view(v@).union(Set::empty()) =~= clauses_view(v@));
    r
}

impl Component {
    /// `False`, the top of the component lattice.
    pub fn dc_false() -> (r: Component)
        ensures
            r@ is None,
    {
        Component::DCFalse
    }

    /// The empty conjunction, the bottom of the component lattice.
    pub fn dc_true() -> (r: Component)
        ensures
            r@ == Some(Set::<PrincipalSet>::empty()),
    {
        let r = Component::DCFormula(Vec::new());
        assert(clauses_view(Seq::<Clause>::empty()) =~= Set::empty());
        r
    }

    /// Whether this component is `False`.
    pub fn is_false(&self) -> (r: bool)
        ensures
            r == self@ is None,
    {
        match self {
            Component::DCFalse => true,
            Component::DCFormula(_) => false,
        }
    }

    /// A copy of this component.
    pub fn duplicate(&self) -> (r: Component)
        ensures
            r@ == self@,
    {
        match self {
            Component::DCFalse => Component::DCFalse,
            Component::DCFormula(v) => Component::DCFormula(duplicate_clauses(v)),
        }
    }

    /// The join of two components: `False` if either is, else the union of
    /// their clauses without any clause that strictly contains another.
    pub fn join(&self, other: &Component) -> (r: Component)
        ensures
            r@ == join_spec(self@, other@),
            component_wf(r@),
    {
        match (self, other) {
            (Component::DCFormula(a), Component::DCFormula(b)) => {
                let all = concat_clauses(a, b);
                let m = minimal_clauses(&all);
                proof {
                    lemma_clauses_finite(all@);
                    lemma_minimize_wf(clauses_view(all@));
                }
                Component::DCFormula(m)
            },
            _ => Component::DCFalse,
        }
    }
}

/// The label reached from `init` by joining it with each label of `ls` in
/// turn.
pub open spec fn lub_all(
    init: (ComponentModel, ComponentModel),
    ls: Seq<(ComponentModel, ComponentModel)>,
) -> (ComponentModel, ComponentModel)
    decreases ls.len(),
{
    if ls.len() == 0 {
        init
    } else {
        lub_spec(lub_all(init, ls.drop_last()), ls.last())
    }
}

/// Raising a label by a sequence of labels gives the same label whichever
/// two neighbours of the sequence are exchanged, and so in whatever order
/// the labels come.
pub proof fn lemma_lub_all_order(
    init: (ComponentModel, ComponentModel),
    ls: Seq<(ComponentModel, ComponentModel)>,
    i: int,
)
    requires
        label_finite(init),
        forall|k: int| 0 <= k < ls.len() ==> label_finite(#[trigger] ls[k]),
        0 <= i < ls.len() - 1,
    ensures
        lub_all(init, ls) == lub_all(init, ls.update(i, ls[i + 1]).update(i + 1, ls[i])),
    decreases ls.len(),
{
    let ms = ls.update(i, ls[i + 1]).update(i + 1, ls[i]);
    if i + 2 == ls.len() {
        let pre = ls.drop_last().drop_last();
        assert(ms.drop_last().drop_last() =~= pre);
        lemma_lub_all_finite(init, pre);
        let x = ls[i];
        let y = ls[i + 1];
        assert(ls.drop_last().last() == x);
        assert(ms.drop_last().last() == y);
        assert(ls.drop_last().drop_last() == pre);
        lemma_lub_associative(lub_all(init, pre), x, y);
        lemma_lub_associative(lub_all(init, pre), y, x);
        lemma_lub_commutative(x, y);
        assert(lub_all(init, ls.drop_last()) == lub_spec(lub_all(init, pre), x));
        assert(lub_all(init, ms.drop_last()) == lub_spec(lub_all(init, pre), y));
        assert(lub_all(init, ls) == lub_spec(lub_all(init, ls.drop_last()), y));
        assert(lub_all(init, ms) == lub_spec(lub_all(init, ms.drop_last()), x));
    } else {
        assert(ms.drop_last() =~= ls.drop_last().update(i, ls[i + 1]).update(i + 1, ls[i]));
        lemma_lub_all_order(init, ls.drop_last(), i);
        assert(ms.last() == ls.last());
        assert(lub_all(init, ms) == lub_spec(lub_all(init, ms.drop_last()), ms.last()));
    }
}

/// One side of a label: `0` its secrecy, any other its integrity.
pub open spec fn side(l: (ComponentModel, ComponentModel), i: int) -> ComponentModel {
    if i == 0 {
        l.0
    } else {
        l.1
    }
}

/// Every label of `ls` has finite clauses.
pub open spec fn all_finite(ls: Seq<(ComponentModel, ComponentModel)>) -> bool {
    forall|k: int| 0 <= k < ls.len() ==> label_finite(#[trigger] ls[k])
}

/// Side `i` of some label of `ls` is `False`.
pub open spec fn any_false(ls: Seq<(ComponentModel, ComponentModel)>, i: int) -> bool {
    exists|k: int| 0 <= k < ls.len() && (#[trigger] side(ls[k], i)) is None
}

/// The clauses on side `i` of the labels of `ls`, all together.
pub open spec fn clauses_of_all(ls: Seq<(ComponentModel, ComponentModel)>, i: int) -> FormulaSet {
    Set::new(
        |c: PrincipalSet|
            exists|k: int|
                0 <= k < ls.len() && (#[trigger] side(ls[k], i)) is Some && side(ls[k], i)->0.contains(
                    c,
                ),
    )
}

/// Side `i` of `init` joined with all of `ls` at once: `False` if any of
/// them is `False` there, else the minimal clauses of all their clauses.
pub open spec fn join_all_side(
    init: (ComponentModel, ComponentModel),
    ls: Seq<(ComponentModel, ComponentModel)>,
    i: int,
) -> ComponentModel {
    match side(init, i) {
        None => None,
        Some(f) => if any_false(ls, i) {
            None
        } else {
            Some(minimize(f.union(clauses_of_all(ls, i))))
        },
    }
}

proof fn lemma_clauses_of_all_finite(ls: Seq<(ComponentModel, ComponentModel)>, i: int)
    requires
        all_finite(ls),
    ensures
        finite_clauses(clauses_of_all(ls, i)),
{
    assert forall|c: PrincipalSet| #[trigger] clauses_of_all(ls, i).contains(c) implies c.finite() by {
        let k = choose|k: int|
            0 <= k < ls.len() && (#[trigger] side(ls[k], i)) is Some && side(ls[k], i)->0.contains(c);
        assert(label_finite(ls[k]));
    }
}

/// A nonempty run of joins, side by side, is the join of all at once.
proof fn lemma_lub_all_closed(
    init: (ComponentModel, ComponentModel),
    ls: Seq<(ComponentModel, ComponentModel)>,
    i: int,
)
    requires
        label_finite(init),
        all_finite(ls),
        ls.len() > 0,
    ensures
        side(lub_all(init, ls), i) == join_all_side(init, ls, i),
    decreases ls.len(),
{
    let pre = ls.drop_last();
    let x = ls.last();
    assert(label_finite(ls[ls.len() - 1]));
    assert(forall|k: int| 0 <= k < pre.len() ==> pre[k] == ls[k]);
    assert(side(lub_all(init, ls), i) == join_spec(side(lub_all(init, pre), i), side(x, i)));
    if pre.len() == 0 {
        assert(any_false(ls, i) <==> side(x, i) is None) by {
            if any_false(ls, i) {
                let k = choose|k: int| 0 <= k < ls.len() && (#[trigger] side(ls[k], i)) is None;
                assert(k == 0);
            }
        }
        if let Some(xf) = side(x, i) {
            assert(side(ls[0], i) is Some);
            assert(clauses_of_all(ls, i) =~= xf);
        }
    } else {
        lemma_lub_all_closed(init, pre, i);
        assert(any_false(ls, i) <==> any_false(pre, i) || side(x, i) is None) by {
            if any_false(ls, i) {
                let k = choose|k: int| 0 <= k < ls.len() && (#[trigger] side(ls[k], i)) is None;
                if k < pre.len() {
                    assert(side(pre[k], i) is None);
                }
            }
            if any_false(pre, i) {
                let k = choose|k: int| 0 <= k < pre.len() && (#[trigger] side(pre[k], i)) is None;
                assert(side(ls[k], i) is None);
            }
            if side(x, i) is None {
                assert(side(ls[ls.len() - 1], i) is None);
            }
        }
        if let (Some(f), Some(xf)) = (side(init, i), side(x, i)) {
            if !any_false(pre, i) {
                let up = clauses_of_all(pre, i);
                assert(clauses_of_all(ls, i) =~= up.union(xf)) by {
                    assert forall|c: PrincipalSet| clauses_of_all(ls, i).contains(c) implies up.union(
                        xf,
                    ).contains(c) by {
                        let k = choose|k: int|
                            0 <= k < ls.len() && (#[trigger] side(ls[k], i)) is Some && side(
                                ls[k],
                                i,
                            )->0.contains(c);
                        if k < pre.len() {
                            assert(side(pre[k], i) is Some);
                        }
                    }
                    assert forall|c: PrincipalSet| up.union(xf).contains(c) implies clauses_of_all(
                        ls,
                        i,
                    ).contains(c) by {
                        if up.contains(c) {
                            let k = choose|k: int|
                                0 <= k < pre.len() && (#[trigger] side(pre[k], i)) is Some && side(
                                    pre[k],
                                    i,
                                )->0.contains(c);
                            assert(side(ls[k], i) is Some);
                        } else {
                            assert(side(ls[ls.len() - 1], i) is Some);
                        }
                    }
                }
                lemma_clauses_of_all_finite(pre, i);
                assert(component_finite(side(init, i))) by {
                    if i == 0 {
                    } else {
                    }
                }
                lemma_minimize_absorb(f.union(up), xf);
                assert(f.union(up).union(xf) =~= f.union(up.union(xf)));
            }
        }
    }
}

/// A run of joins from a well-formed label, empty or not, is the join of
/// all at once.
proof fn lemma_lub_all_closed_wf(
    init: (ComponentModel, ComponentModel),
    ls: Seq<(ComponentModel, ComponentModel)>,
    i: int,
)
    requires
        label_wf(init),
        all_finite(ls),
    ensures
        side(lub_all(init, ls), i) == join_all_side(init, ls, i),
{
    if ls.len() > 0 {
        lemma_lub_all_closed(init, ls, i);
    } else {
        if let Some(f) = side(init, i) {
            assert(component_wf(side(init, i)));
            assert(clauses_of_all(ls, i) =~= Set::empty());
            assert(f.union(Set::empty()) =~= f);
            assert(minimize(f) =~= f);
        }
    }
}

/// Raising a label by a run of labels gives the same label whatever their
/// order, and however often each occurs: it depends only on which labels
/// the run holds.
pub proof fn lemma_lub_all_same_labels(
    init: (ComponentModel, ComponentModel),
    ls: Seq<(ComponentModel, ComponentModel)>,
    ms: Seq<(ComponentModel, ComponentModel)>,
)
    requires
        label_finite(init),
        all_finite(ls),
        all_finite(ms),
        forall|x: (ComponentModel, ComponentModel)| ls.contains(x) <==> ms.contains(x),
    ensures
        lub_all(init, ls) == lub_all(init, ms),
{
    if ls.len() == 0 {
        if ms.len() > 0 {
            assert(ms.contains(ms[0]));
        }
        assert(ms =~= ls);
    } else {
        assert(ls.contains(ls[0]));
        assert forall|i: int| 0 <= i <= 1 implies side(lub_all(init, ls), i) == side(
            lub_all(init, ms),
            i,
        ) by {
            lemma_lub_all_closed(init, ls, i);
            lemma_lub_all_closed(init, ms, i);
            assert(any_false(ls, i) <==> any_false(ms, i)) by {
                if any_false(ls, i) {
                    let k = choose|k: int| 0 <= k < ls.len() && (#[trigger] side(ls[k], i)) is None;
                    assert(ls.contains(ls[k]));
                    let k2 = choose|k2: int| 0 <= k2 < ms.len() && ms[k2] == ls[k];
                    assert(side(ms[k2], i) is None);
                }
                if any_false(ms, i) {
                    let k = choose|k: int| 0 <= k < ms.len() && (#[trigger] side(ms[k], i)) is None;
                    assert(ms.contains(ms[k]));
                    let k2 = choose|k2: int| 0 <= k2 < ls.len() && ls[k2] == ms[k];
                    assert(side(ls[k2], i) is None);
                }
            }
            assert(clauses_of_all(ls, i) =~= clauses_of_all(ms, i)) by {
                assert forall|c: PrincipalSet| clauses_of_all(ls, i).contains(c) implies clauses_of_all(
                    ms,
                    i,
                ).contains(c) by {
                    let k = choose|k: int|
                        0 <= k < ls.len() && (#[trigger] side(ls[k], i)) is Some && side(
                            ls[k],
                            i,
                        )->0.contains(c);
                    assert(ls.contains(ls[k]));
                    let k2 = choose|k2: int| 0 <= k2 < ms.len() && ms[k2] == ls[k];
                    assert(side(ms[k2], i) is Some);
                }
                assert forall|c: PrincipalSet| clauses_of_all(ms, i).contains(c) implies clauses_of_all(
                    ls,
                    i,
                ).contains(c) by {
                    let k = choose|k: int|
                        0 <= k < ms.len() && (#[trigger] side(ms[k], i)) is Some && side(
                            ms[k],
                            i,
                        )->0.contains(c);
                    assert(ms.contains(ms[k]));
                    let k2 = choose|k2: int| 0 <= k2 < ls.len() && ls[k2] == ms[k];
                    assert(side(ls[k2], i) is Some);
                }
            }
        }
        assert(side(lub_all(init, ls), 0) == side(lub_all(init, ms), 0));
        assert(side(lub_all(init, ls), 1) == side(lub_all(init, ms), 1));
    }
}

/// Along a run of joins from a well-formed label the label only rises: the
/// label after any first part of the run (the start label itself after none)
/// joined with the final label is the final label.
pub proof fn lemma_lub_all_rises(
    init: (ComponentModel, ComponentModel),
    ls: Seq<(ComponentModel, ComponentModel)>,
    j: int,
)
    requires
        label_wf(init),
        all_finite(ls),
        0 <= j <= ls.len(),
    ensures
        lub_spec(lub_all(init, ls.take(j)), lub_all(init, ls)) == lub_all(init, ls),
{
    let ps = ls.take(j);
    assert(all_finite(ps)) by {
        assert forall|k: int| 0 <= k < ps.len() implies label_finite(#[trigger] ps[k]) by {
            assert(ps[k] == ls[k]);
        }
    }
    assert forall|i: int| 0 <= i <= 1 implies side(
        lub_spec(lub_all(init, ps), lub_all(init, ls)),
        i,
    ) == side(lub_all(init, ls), i) by {
        lemma_lub_all_closed_wf(init, ps, i);
        lemma_lub_all_closed_wf(init, ls, i);
        assert(side(lub_spec(lub_all(init, ps), lub_all(init, ls)), i) == join_spec(
            side(lub_all(init, ps), i),
            side(lub_all(init, ls), i),
        ));
        if let Some(f) = side(init, i) {
            if !any_false(ls, i) {
                assert(!any_false(ps, i)) by {
                    if any_false(ps, i) {
                        let k = choose|k: int|
                            0 <= k < ps.len() && (#[trigger] side(ps[k], i)) is None;
                        assert(side(ls[k], i) is None);
                    }
                }
                let uj = clauses_of_all(ps, i);
                let u = clauses_of_all(ls, i);
                assert(uj.subset_of(u)) by {
                    assert forall|c: PrincipalSet| uj.contains(c) implies u.contains(c) by {
                        let k = choose|k: int|
                            0 <= k < ps.len() && (#[trigger] side(ps[k], i)) is Some && side(
                                ps[k],
                                i,
                            )->0.contains(c);
                        assert(side(ls[k], i) is Some);
                    }
                }
                lemma_clauses_of_all_finite(ps, i);
                lemma_clauses_of_all_finite(ls, i);
                assert(component_wf(side(init, i)));
                lemma_minimize_absorb(f.union(uj), minimize(f.union(u)));
                lemma_minimize_absorb(f.union(u), f.union(uj));
                assert(minimize(f.union(u)).union(f.union(uj)) =~= f.union(uj).union(
                    minimize(f.union(u)),
                ));
                assert(f.union(u).union(f.union(uj)) =~= f.union(u));
            }
        }
    }
    assert(side(lub_spec(lub_all(init, ps), lub_all(init, ls)), 0) == side(lub_all(init, ls), 0));
    assert(side(lub_spec(lub_all(init, ps), lub_all(init, ls)), 1) == side(lub_all(init, ls), 1));
}

/// Joins of labels with finite clauses have finite clauses.
pub proof fn lemma_lub_all_finite(
    init: (ComponentModel, ComponentModel),
    ls: Seq<(ComponentModel, ComponentModel)>,
)
    requires
        label_finite(init),
        forall|k: int| 0 <= k < ls.len() ==> label_finite(#[trigger] ls[k]),
    ensures
        label_finite(lub_all(init, ls)),
    decreases ls.len(),
{
    if ls.len() > 0 {
        lemma_lub_all_finite(init, ls.drop_last());
        assert(label_finite(ls[ls.len() - 1]));
    }
}

impl DCLabel {
    /// A label of the given components.
    pub fn new(secrecy: Component, integrity: Component) -> (r: DCLabel)
        ensures
            r@ == (secrecy@, integrity@),
    {
        DCLabel { secrecy, integrity }
    }

    /// The public label: the empty conjunction on both sides.
    pub fn public() -> (r: DCLabel)
        ensures
            r@ == public_spec(),
    {
        DCLabel { secrecy: Component::dc_true(), integrity: Component::dc_true() }
    }

    /// A copy of this label.
    pub fn duplicate(&self) -> (r: DCLabel)
        ensures
            r@ == self@,
    {
        DCLabel { secrecy: self.secrecy.duplicate(), integrity: self.integrity.duplicate() }
    }

    /// The least upper bound of two labels: each side joined with the same
    /// side of the other.
    pub fn lub(&self, other: &DCLabel) -> (r: DCLabel)
        ensures
            r@ == lub_spec(self@, other@),
            label_wf(r@),
    {
        DCLabel {
            secrecy: self.secrecy.join(&other.secrecy),
            integrity: self.integrity.join(&other.integrity),
        }
    }
}

} // verus!
