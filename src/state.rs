//! The abstract string domain: a value is a sequence of segments, each a
//! known literal or an unknown hole.

use vstd::prelude::*;

verus! {

/// The mathematical view of one segment of an abstract value.
pub enum Segment {
    Lit(Seq<char>),
    Hole,
}

/// One segment of an abstract value: a known piece of text, or a hole that
/// stands for text that cannot be known statically.
#[derive(Debug)]
pub enum VariableStateConstraint {
    Hole,
    Value(String),
}

impl View for VariableStateConstraint {
    type V = Segment;

    open spec fn view(&self) -> Segment {
        match self {
            VariableStateConstraint::Hole => Segment::Hole,
            VariableStateConstraint::Value(s) => Segment::Lit(s@),
        }
    }
}

impl Clone for VariableStateConstraint {
    fn clone(&self) -> (r: Self)
        ensures
            r@ == self@,
    {
        match self {
            VariableStateConstraint::Hole => VariableStateConstraint::Hole,
            VariableStateConstraint::Value(s) => VariableStateConstraint::Value(s.clone()),
        }
    }
}

/// An abstract string value: its segments in order.
#[derive(Debug)]
pub struct VariableState {
    pub constraints: Vec<VariableStateConstraint>,
}

impl View for VariableState {
    type V = Seq<Segment>;

    open spec fn view(&self) -> Seq<Segment> {
        self.constraints@.map_values(|c: VariableStateConstraint| c@)
    }
}

/// The glob text of an abstract value: literal text as it stands, `*` for
/// each hole.
pub open spec fn rendered(s: Seq<Segment>) -> Seq<char>
    decreases s.len(),
{
    if s.len() == 0 {
        Seq::empty()
    } else {
        rendered(s.drop_last()) + match s.last() {
            Segment::Lit(t) => t,
            Segment::Hole => seq!['*'],
        }
    }
}

/// The normal form of an abstract value: every run of adjacent literal
/// segments joined into one literal; holes stay where they are.
pub open spec fn optimized(s: Seq<Segment>) -> Seq<Segment>
    decreases s.len(),
{
    if s.len() == 0 {
        s
    } else {
        let r = optimized(s.drop_last());
        if r.len() > 0 && r.last() is Lit && s.last() is Lit {
            r.drop_last().push(Segment::Lit(r.last()->Lit_0 + s.last()->Lit_0))
        } else {
            r.push(s.last())
        }
    }
}

/// No two adjacent segments are both literals.
pub open spec fn is_normalized(s: Seq<Segment>) -> bool {
    forall|i: int| 0 <= i < s.len() - 1 ==> !(#[trigger] s[i] is Lit && s[i + 1] is Lit)
}

/// The normal form has no adjacent literals.
pub proof fn lemma_optimized_is_normalized(s: Seq<Segment>)
    ensures
        is_normalized(optimized(s)),
    decreases s.len(),
{
    if s.len() > 0 {
        lemma_optimized_is_normalized(s.drop_last());
        let r = optimized(s.drop_last());
        if r.len() > 0 && r.last() is Lit && s.last() is Lit {
            let t = optimized(s);
            assert forall|i: int| 0 <= i < t.len() - 1 implies !(#[trigger] t[i] is Lit && t[i + 1] is Lit) by {
                if i + 1 == t.len() - 1 {
                    assert(t[i] == r[i]);
                    assert(r[i + 1] is Lit);
                } else {
                    assert(t[i] == r[i] && t[i + 1] == r[i + 1]);
                }
            }
        } else {
            let t = optimized(s);
            assert forall|i: int| 0 <= i < t.len() - 1 implies !(#[trigger] t[i] is Lit && t[i + 1] is Lit) by {
                if i + 1 == t.len() - 1 {
                    assert(t[i] == r.last());
                } else {
                    assert(t[i] == r[i] && t[i + 1] == r[i + 1]);
                }
            }
        }
    }
}

/// A value already in normal form is its own normal form.
pub proof fn lemma_normalized_is_fixed(s: Seq<Segment>)
    requires
        is_normalized(s),
    ensures
        optimized(s) == s,
    decreases s.len(),
{
    if s.len() > 0 {
        let d = s.drop_last();
        assert(is_normalized(d)) by {
            assert forall|i: int| 0 <= i < d.len() - 1 implies !(#[trigger] d[i] is Lit && d[i + 1] is Lit) by {
                assert(d[i] == s[i] && d[i + 1] == s[i + 1]);
            }
        }
        lemma_normalized_is_fixed(d);
        if d.len() > 0 {
            assert(d.last() == s[s.len() - 2]);
            assert(!(s[s.len() - 2] is Lit && s[s.len() - 1] is Lit));
        }
        assert(d.push(s.last()) =~= s);
    }
}

/// Normalizing is idempotent: normalizing a normalized value changes nothing.
pub proof fn lemma_optimize_idempotent(s: Seq<Segment>)
    ensures
        optimized(optimized(s)) == optimized(s),
{
    lemma_optimized_is_normalized(s);
    lemma_normalized_is_fixed(optimized(s));
}

/// Concatenation puts nothing at the seam: the glob text of `a + b` is the
/// glob text of `a` followed by that of `b`.
pub proof fn lemma_rendered_concat(a: Seq<Segment>, b: Seq<Segment>)
    ensures
        rendered(a + b) == rendered(a) + rendered(b),
    decreases b.len(),
{
    if b.len() == 0 {
        assert(a + b =~= a);
        assert(rendered(b) =~= Seq::<char>::empty());
        assert(rendered(a) + rendered(b) =~= rendered(a));
    } else {
        lemma_rendered_concat(a, b.drop_last());
        assert((a + b).drop_last() =~= a + b.drop_last());
        assert((a + b).last() == b.last());
        let tail = match b.last() {
            Segment::Lit(t) => t,
            Segment::Hole => seq!['*'],
        };
        assert(rendered(a) + rendered(b.drop_last()) + tail =~= rendered(a) + (rendered(
            b.drop_last(),
        ) + tail));
    }
}

impl VariableState {
    /// A value with no segments at all.
    pub fn empty() -> (r: Self)
        ensures
            r@ == Seq::<Segment>::empty(),
    {
        VariableState { constraints: Vec::new() }
    }

    /// A value known to be exactly `value`.
    pub fn value(value: String) -> (r: Self)
        ensures
            r@ == seq![Segment::Lit(value@)],
    {
        let mut constraints = Vec::new();
        constraints.push(VariableStateConstraint::Value(value));
        let r = VariableState { constraints };
        assert(r@ =~= seq![Segment::Lit(value@)]);
        r
    }

    /// A value about which nothing is known.
    pub fn hole() -> (r: Self)
        ensures
            r@ == seq![Segment::Hole],
    {
        let mut constraints = Vec::new();
        constraints.push(VariableStateConstraint::Hole);
        let r = VariableState { constraints };
        assert(r@ =~= seq![Segment::Hole]);
        r
    }

    /// The segments of `self` followed by those of `other`, with no segment
    /// added at the seam.
    pub fn concat(&self, other: &VariableState) -> (r: Self)
        ensures
            r@ == self@ + other@,
    {
        let mut r = self.clone();
        let n = other.constraints.len();
        let mut i: usize = 0;
        while i < n
            invariant
                n == other.constraints.len(),
                i <= n,
                r@ == self@ + other@.subrange(0, i as int),
            decreases n - i,
        {
            let ghost before = r.constraints@;
            let c = other.constraints[i].clone();
            r.constraints.push(c);
            assert(r.constraints@ == before.push(c));
            assert(r@ =~= before.map_values(|c: VariableStateConstraint| c@).push(c@));
            i += 1;
            assert(r@ =~= self@ + other@.subrange(0, i as int));
        }
        assert(other@.subrange(0, n as int) =~= other@);
        r
    }

    /// The normal form of `self`: adjacent literal segments joined.
    pub fn optimize(&self) -> (r: Self)
        ensures
            r@ == optimized(self@),
    {
        let mut r = VariableState::empty();
        let n = self.constraints.len();
        let mut i: usize = 0;
        while i < n
            invariant
                n == self.constraints.len(),
                i <= n,
                r@ == optimized(self@.subrange(0, i as int)),
            decreases n - i,
        {
            let ghost prefix = self@.subrange(0, i + 1);
            assert(prefix.drop_last() =~= self@.subrange(0, i as int));
            let len = r.constraints.len();
            match &self.constraints[i] {
                VariableStateConstraint::Value(v) => {
                    if len > 0 && matches!(r.constraints[len - 1], VariableStateConstraint::Value(_)) {
                        let last = r.constraints.pop().unwrap();
                        match last {
                            VariableStateConstraint::Value(w) => {
                                r.constraints.push(
                                    VariableStateConstraint::Value(w.concat(v.as_str())),
                                );
                            },
                            VariableStateConstraint::Hole => {},
                        }
                    } else {
                        r.constraints.push(VariableStateConstraint::Value(v.clone()));
                    }
                },
                VariableStateConstraint::Hole => {
                    r.constraints.push(VariableStateConstraint::Hole);
                },
            }
            i += 1;
            assert(r@ =~= optimized(prefix));
        }
        assert(self@.subrange(0, n as int) =~= self@);
        r
    }
}

impl Clone for VariableState {
    fn clone(&self) -> (r: Self)
        ensures
            r@ == self@,
    {
        let mut constraints: Vec<VariableStateConstraint> = Vec::new();
        let n = self.constraints.len();
        let mut i: usize = 0;
        while i < n
            invariant
                n == self.constraints.len(),
                i <= n,
                constraints@.len() == i,
                forall|k: int| 0 <= k < i ==> constraints@[k]@ == self.constraints@[k]@,
            decreases n - i,
        {
            constraints.push(self.constraints[i].clone());
            i += 1;
        }
        let r = VariableState { constraints };
        assert(r@ =~= self@);
        r
    }
}

/// The glob text of `state`: literal segments verbatim, `*` for each hole.
pub fn globhole(state: &VariableState) -> (r: String)
    ensures
        r@ == rendered(state@),
{
    let mut globholed = String::new();
    let n = state.constraints.len();
    let mut i: usize = 0;
    while i < n
        invariant
            n == state.constraints.len(),
            i <= n,
            globholed@ == rendered(state@.subrange(0, i as int)),
        decreases n - i,
    {
        assert(state@.subrange(0, i + 1).drop_last() =~= state@.subrange(0, i as int));
        match &state.constraints[i] {
            VariableStateConstraint::Hole => {
                globholed.append("*");
                proof {
                    reveal_strlit("*");
                }
            },
            VariableStateConstraint::Value(value) => {
                globholed.append(value.as_str());
            },
        }
        i += 1;
    }
    assert(state@.subrange(0, n as int) =~= state@);
    globholed
}

} // verus!
