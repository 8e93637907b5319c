//! The declaration index and the driver: which functions carry the
//! declaration and entrypoint markers, the parsed declarations, and one
//! analysis run from the entrypoint.

use vstd::prelude::*;

use crate::ast::{DeclModel, DeclareMacro};
use crate::infer::{
    delivers, infer_fn, infer_outcome, DeclarationIndex, DeclaredItemFn, Diagnostic, InferError,
    SideEffect,
};
use crate::parser::sp_declaration;
use crate::state::{Segment, VariableState};
use crate::syntax::{Attribute, ItemFn};

verus! {

/// The name of the attribute that carries a declaration.
pub open spec fn marker_declare() -> Seq<char> {
    seq!['d', 'e', 'c', 'l', 'a', 'r', 'e']
}

/// The name of the attribute that marks the entrypoint.
pub open spec fn marker_entrypoint() -> Seq<char> {
    seq!['e', 'n', 't', 'r', 'y', 'p', 'o', 'i', 'n', 't']
}

/// The first attribute named `marker`.
pub open spec fn find_marker(attrs: Seq<Attribute>, marker: Seq<char>) -> Option<int>
    decreases attrs.len(),
{
    if attrs.len() == 0 {
        None
    } else {
        match find_marker(attrs.drop_last(), marker) {
            Some(k) => Some(k),
            None => if attrs.last().name@ == marker {
                Some(attrs.len() - 1)
            } else {
                None
            },
        }
    }
}

/// The first function that carries the entrypoint marker.
pub open spec fn first_entrypoint(fns: Seq<ItemFn>) -> Option<int>
    decreases fns.len(),
{
    if fns.len() == 0 {
        None
    } else {
        match first_entrypoint(fns.drop_last()) {
            Some(k) => Some(k),
            None => if find_marker(fns.last().attrs@, marker_entrypoint()) is Some {
                Some(fns.len() - 1)
            } else {
                None
            },
        }
    }
}

/// The view of an index entry: the function's name and its declaration,
/// or the position where the declaration's text stops matching.
pub struct DeclaredModel {
    pub name: Seq<char>,
    pub declaration: Result<DeclModel, int>,
}

impl View for DeclaredItemFn {
    type V = DeclaredModel;

    open spec fn view(&self) -> DeclaredModel {
        DeclaredModel {
            name: self.name@,
            declaration: match self.declaration {
                Ok(d) => Ok(d@),
                Err(e) => Err(e.offset as int),
            },
        }
    }
}

/// The index of a program: one entry per function with the declaration
/// marker, in order, holding the parse of that attribute's text.
pub open spec fn declared_entries(fns: Seq<ItemFn>) -> Seq<DeclaredModel>
    decreases fns.len(),
{
    if fns.len() == 0 {
        Seq::empty()
    } else {
        let f = fns.last();
        declared_entries(fns.drop_last()) + match find_marker(f.attrs@, marker_declare()) {
            Some(k) => seq![
                DeclaredModel { name: f.name@, declaration: sp_declaration(f.attrs@[k].tokens@) },
            ],
            None => Seq::empty(),
        }
    }
}

/// `s` holds exactly the characters `t`.
fn text_is(s: &String, t: &[char]) -> (r: bool)
    ensures
        r == (s@ == t@),
{
    let text = s.as_str();
    let n = text.unicode_len();
    if n != t.len() {
        return false;
    }
    let mut i: usize = 0;
    while i < n
        invariant
            n == text@.len(),
            n == t@.len(),
            text@ == s@,
            i <= n,
            forall|k: int| 0 <= k < i ==> text@[k] == t@[k],
        decreases n - i,
    {
        if text.get_char(i) != t[i] {
            return false;
        }
        i += 1;
    }
    assert(s@ =~= t@);
    true
}

/// The position of the first attribute named `marker`.
fn marker_position(attrs: &Vec<Attribute>, marker: &[char]) -> (r: Option<usize>)
    ensures
        match find_marker(attrs@, marker@) {
            Some(k) => r == Some(k as usize) && 0 <= k < attrs.len(),
            None => r is None,
        },
{
    let mut i: usize = 0;
    while i < attrs.len()
        invariant
            i <= attrs@.len(),
            find_marker(attrs@.take(i as int), marker@) is None,
        decreases attrs@.len() - i,
    {
        assert(attrs@.take(i + 1).drop_last() =~= attrs@.take(i as int));
        assert(attrs@.take(i + 1).last() == attrs@[i as int]);
        if text_is(&attrs[i].name, marker) {
            assert(find_marker(attrs@.take(i + 1), marker@) == Some(i as int));
            proof {
                lemma_find_marker_prefix(attrs@, marker@, i + 1, attrs@.len() as int);
                assert(attrs@.take(attrs@.len() as int) =~= attrs@);
            }
            return Some(i);
        }
        i += 1;
    }
    assert(attrs@.take(i as int) =~= attrs@);
    None
}

proof fn lemma_find_marker_prefix(attrs: Seq<Attribute>, marker: Seq<char>, m: int, t: int)
    requires
        0 <= m <= t <= attrs.len(),
        find_marker(attrs.take(m), marker) is Some,
    ensures
        find_marker(attrs.take(t), marker) == find_marker(attrs.take(m), marker),
    decreases t - m,
{
    if t > m {
        lemma_find_marker_prefix(attrs, marker, m, t - 1);
        assert(attrs.take(t).drop_last() =~= attrs.take(t - 1));
    }
}

/// Whether `item_fn` carries the declaration marker.
pub fn check_if_declare(item_fn: &ItemFn) -> (r: bool)
    ensures
        r == find_marker(item_fn.attrs@, marker_declare()) is Some,
{
    let m: [char; 7] = ['d', 'e', 'c', 'l', 'a', 'r', 'e'];
    assert(m@ =~= marker_declare());
    marker_position(&item_fn.attrs, &m).is_some()
}

/// Whether `item_fn` carries the entrypoint marker.
pub fn check_if_entrypoint(item_fn: &ItemFn) -> (r: bool)
    ensures
        r == find_marker(item_fn.attrs@, marker_entrypoint()) is Some,
{
    let m: [char; 10] = ['e', 'n', 't', 'r', 'y', 'p', 'o', 'i', 'n', 't'];
    assert(m@ =~= marker_entrypoint());
    marker_position(&item_fn.attrs, &m).is_some()
}

proof fn lemma_first_entrypoint_prefix(fns: Seq<ItemFn>, m: int, t: int)
    requires
        0 <= m <= t <= fns.len(),
        first_entrypoint(fns.take(m)) is Some,
    ensures
        first_entrypoint(fns.take(t)) == first_entrypoint(fns.take(m)),
    decreases t - m,
{
    if t > m {
        lemma_first_entrypoint_prefix(fns, m, t - 1);
        assert(fns.take(t).drop_last() =~= fns.take(t - 1));
    }
}

/// The position of the first function with the entrypoint marker.
pub fn find_entrypoint(fns: &Vec<ItemFn>) -> (r: Option<usize>)
    ensures
        match first_entrypoint(fns@) {
            Some(k) => r == Some(k as usize) && 0 <= k < fns.len(),
            None => r is None,
        },
{
    let mut i: usize = 0;
    while i < fns.len()
        invariant
            i <= fns@.len(),
            first_entrypoint(fns@.take(i as int)) is None,
        decreases fns@.len() - i,
    {
        assert(fns@.take(i + 1).drop_last() =~= fns@.take(i as int));
        if check_if_entrypoint(&fns[i]) {
            proof {
                lemma_first_entrypoint_prefix(fns@, i + 1, fns@.len() as int);
                assert(fns@.take(fns@.len() as int) =~= fns@);
            }
            return Some(i);
        }
        i += 1;
    }
    assert(fns@.take(i as int) =~= fns@);
    None
}

/// The declaration index of a program: for every function with the
/// declaration marker, in order, its name and the parse of the marker's
/// text. A text that does not parse is kept as its error, so that only
/// analyses that reach that function fail.
pub fn get_all_declared_fns(fns: &Vec<ItemFn>) -> (r: DeclarationIndex)
    ensures
        r.entries@.map_values(|e: DeclaredItemFn| e@) == declared_entries(fns@),
{
    let mut entries: Vec<DeclaredItemFn> = Vec::new();
    let mut i: usize = 0;
    let m: [char; 7] = ['d', 'e', 'c', 'l', 'a', 'r', 'e'];
    assert(m@ =~= marker_declare());
    assert(entries@.map_values(|e: DeclaredItemFn| e@) =~= declared_entries(fns@.take(0)));
    while i < fns.len()
        invariant
            i <= fns@.len(),
            m@ == marker_declare(),
            entries@.map_values(|e: DeclaredItemFn| e@) == declared_entries(fns@.take(i as int)),
        decreases fns@.len() - i,
    {
        assert(fns@.take(i + 1).drop_last() =~= fns@.take(i as int));
        assert(fns@.take(i + 1).last() == fns@[i as int]);
        let f = &fns[i];
        match marker_position(&f.attrs, &m) {
            Some(k) => {
                let declaration = DeclareMacro::from_attribute(f.attrs[k].tokens.as_str());
                let entry = DeclaredItemFn { name: f.name.clone(), declaration };
                let ghost prev = entries@;
                entries.push(entry);
                assert(entries@.map_values(|e: DeclaredItemFn| e@) =~= prev.map_values(
                    |e: DeclaredItemFn| e@,
                ).push(entry@));
            },
            None => {
                assert(declared_entries(fns@.take(i + 1)) =~= declared_entries(fns@.take(i as int)));
            },
        }
        i += 1;
    }
    assert(fns@.take(i as int) =~= fns@);
    DeclarationIndex { entries }
}

/// One analysis run: infers the first function with the entrypoint
/// marker, each of its parameters unknown, against the declaration
/// index `index`, appending the effects it resolves and the diagnostics
/// it notes.
pub fn analyze(
    fns: &Vec<ItemFn>,
    index: &DeclarationIndex,
    side_effects: &mut Vec<SideEffect>,
    diagnostics: &mut Vec<Diagnostic>,
) -> (r: Result<VariableState, InferError>)
    ensures
        match first_entrypoint(fns@) {
            None => r == Err::<VariableState, InferError>(InferError::NoEntrypoint)
                && final(side_effects)@ == old(side_effects)@ && final(diagnostics)@ == old(
                diagnostics,
            )@,
            Some(k) => delivers(
                r,
                infer_outcome(
                    fns@,
                    index.entries@,
                    k,
                    Seq::new(fns@[k].params@.len(), |i: int| seq![Segment::Hole]),
                    Seq::new(fns@.len(), |i: int| false),
                ),
                old(side_effects)@,
                final(side_effects)@,
                old(diagnostics)@,
                final(diagnostics)@,
            ),
        },
{
    let entry = match find_entrypoint(fns) {
        Some(k) => k,
        None => return Err(InferError::NoEntrypoint),
    };
    let n_params = fns[entry].params.len();
    let mut arguments: Vec<VariableState> = Vec::new();
    let mut i: usize = 0;
    while i < n_params
        invariant
            i <= n_params,
            crate::infer::states_view(arguments@) == Seq::new(i as nat, |j: int| seq![Segment::Hole]),
        decreases n_params - i,
    {
        let ghost prev = arguments@;
        let h = VariableState::hole();
        arguments.push(h);
        assert(crate::infer::states_view(arguments@) =~= crate::infer::states_view(prev).push(h@));
        i += 1;
        assert(crate::infer::states_view(arguments@) =~= Seq::new(i as nat, |j: int| seq![Segment::Hole]));
    }
    let mut active: Vec<bool> = Vec::new();
    let mut j: usize = 0;
    while j < fns.len()
        invariant
            j <= fns@.len(),
            active@ == Seq::new(j as nat, |t: int| false),
        decreases fns@.len() - j,
    {
        active.push(false);
        j += 1;
        assert(active@ =~= Seq::new(j as nat, |t: int| false));
    }
    infer_fn(side_effects, diagnostics, entry, &arguments, index, fns, &mut active)
}

} // verus!
