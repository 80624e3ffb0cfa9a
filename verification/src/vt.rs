//! The VT parser (crate `vte`) turns bytes into actions; the terminal
//! applies them. Parsing keeps its state across calls, so an escape
//! sequence may arrive split over several feeds.

use vstd::prelude::*;
use crate::text::views;

verus! {

#[verifier::external_type_specification]
#[verifier::external_body]
pub struct ExVteParser<const N: usize>(vte::Parser<N>);

#[verifier::external_type_specification]
#[verifier::external_body]
pub struct ExVteParams(vte::Params);

/// One action produced by the VT parser.
#[derive(Debug, Clone)]
pub enum VtAction {
    /// A printable character.
    Print(char),
    /// A C0/C1 control byte.
    Execute(u8),
    /// A CSI sequence: parameters (sub-parameters flattened), intermediates,
    /// the overflow flag and the final character.
    Csi { params: Vec<u16>, intermediates: Vec<u8>, ignore: bool, action: char },
    /// An OSC sequence: its `;`-separated parameters.
    Osc { params: Vec<Vec<u8>> },
}

/// Model of a parser action: vectors by their contents.
pub enum ActionView {
    Print(char),
    Execute(u8),
    Csi { params: Seq<u16>, intermediates: Seq<u8>, ignore: bool, action: char },
    Osc { params: Seq<Seq<u8>> },
}

pub open spec fn action_view(a: VtAction) -> ActionView {
    match a {
        VtAction::Print(c) => ActionView::Print(c),
        VtAction::Execute(b) => ActionView::Execute(b),
        VtAction::Csi { params, intermediates, ignore, action } => ActionView::Csi {
            params: params@,
            intermediates: intermediates@,
            ignore,
            action,
        },
        VtAction::Osc { params } => ActionView::Osc { params: views(params@) },
    }
}

/// Models of actions, in order.
pub open spec fn actions_view(acts: Seq<VtAction>) -> Seq<ActionView> {
    Seq::new(acts.len(), |i: int| action_view(acts[i]))
}

/// Collects the parser's actions in order.
pub struct VtCollector {
    pub actions: Vec<VtAction>,
}

/// A copy of a slice.
pub fn to_vec(s: &[u8]) -> (v: Vec<u8>)
    ensures
        v@ == s@,
{
    let mut v: Vec<u8> = Vec::with_capacity(s.len());
    let mut i: usize = 0;
    while i < s.len()
        invariant
            i <= s@.len(),
            v@ == s@.take(i as int),
        decreases s@.len() - i,
    {
        v.push(s[i]);
        assert(v@ =~= s@.take(i + 1));
        i = i + 1;
    }
    assert(v@ =~= s@);
    v
}

impl vte::Perform for VtCollector {
    fn print(&mut self, c: char)
        ensures
            final(self).actions@ == old(self).actions@.push(VtAction::Print(c)),
    {
        self.actions.push(VtAction::Print(c));
    }

    fn execute(&mut self, byte: u8)
        ensures
            final(self).actions@ == old(self).actions@.push(VtAction::Execute(byte)),
    {
        self.actions.push(VtAction::Execute(byte));
    }

    fn csi_dispatch(&mut self, params: &vte::Params, intermediates: &[u8], ignore: bool, action: char)
        ensures
            final(self).actions@.len() == old(self).actions@.len() + 1,
            final(self).actions@.drop_last() == old(self).actions@,
            match final(self).actions@.last() {
                VtAction::Csi { params: _, intermediates: i, ignore: g, action: a } => i@
                    == intermediates@ && g == ignore && a == action,
                _ => false,
            },
    {
        let params = params_flat(&params_groups(params));
        let intermediates = to_vec(intermediates);
        self.actions.push(VtAction::Csi { params, intermediates, ignore, action });
        assert(self.actions@.drop_last() =~= old(self).actions@);
    }

    fn osc_dispatch(&mut self, params: &[&[u8]], bell_terminated: bool)
        ensures
            final(self).actions@.len() == old(self).actions@.len() + 1,
            final(self).actions@.drop_last() == old(self).actions@,
            match final(self).actions@.last() {
                VtAction::Osc { params: p } => views(p@) == Seq::new(
                    params@.len(),
                    |j: int| params@[j]@,
                ),
                _ => false,
            },
    {
        let mut v: Vec<Vec<u8>> = Vec::with_capacity(params.len());
        let mut i: usize = 0;
        while i < params.len()
            invariant
                i <= params@.len(),
                v@.len() == i,
                views(v@) == Seq::new(i as nat, |j: int| params@[j]@),
            decreases params@.len() - i,
        {
            let c = to_vec(params[i]);
            let ghost before = v@;
            v.push(c);
            proof {
                assert forall|j: int| 0 <= j < i + 1 implies #[trigger] views(v@)[j] == params@[j]@ by {
                    if j < i {
                        assert(v@[j] == before[j]);
                        assert(views(before)[j] == params@[j]@);
                    } else {
                        assert(v@[j] == c);
                    }
                }
                assert(views(v@) =~= Seq::new((i + 1) as nat, |j: int| params@[j]@));
            }
            i = i + 1;
        }
        self.actions.push(VtAction::Osc { params: v });
        assert(self.actions@.drop_last() =~= old(self).actions@);
    }
}

/// Calls `vte::Params::iter`: each parameter with its sub-parameters, in
/// order. Nothing is claimed of the values: they come from the parser's
/// internal state.
#[verifier::external_body]
fn params_groups(params: &vte::Params) -> Vec<Vec<u16>> {
    params.iter().map(|sub| sub.to_vec()).collect()
}

/// The parameters in order, each group's sub-parameters in place.
pub open spec fn flatten(groups: Seq<Seq<u16>>) -> Seq<u16>
    decreases groups.len(),
{
    if groups.len() == 0 {
        Seq::empty()
    } else {
        flatten(groups.drop_last()) + groups.last()
    }
}

pub open spec fn groups_view(g: Seq<Vec<u16>>) -> Seq<Seq<u16>> {
    Seq::new(g.len(), |i: int| g[i]@)
}

/// The groups' values one after another.
pub fn params_flat(groups: &Vec<Vec<u16>>) -> (r: Vec<u16>)
    ensures
        r@ == flatten(groups_view(groups@)),
{
    let ghost gv = groups_view(groups@);
    let mut out: Vec<u16> = Vec::new();
    let mut i: usize = 0;
    while i < groups.len()
        invariant
            gv == groups_view(groups@),
            i <= groups@.len(),
            out@ == flatten(gv.take(i as int)),
        decreases groups@.len() - i,
    {
        let g = &groups[i];
        let mut j: usize = 0;
        let ghost before = out@;
        while j < g.len()
            invariant
                j <= g@.len(),
                out@ == before + g@.take(j as int),
            decreases g@.len() - j,
        {
            out.push(g[j]);
            assert(out@ =~= before + g@.take(j + 1));
            j = j + 1;
        }
        assert(gv.take(i + 1).drop_last() =~= gv.take(i as int));
        assert(g@.take(j as int) =~= g@);
        i = i + 1;
    }
    assert(gv.take(i as int) =~= gv);
    out
}

/// The VT parser with, for the proofs, every byte it has been given since it
/// was made: its state, and so what it makes of the next bytes, is a function
/// of those bytes alone.
pub struct VtParser {
    parser: vte::Parser,
    fed: Ghost<Seq<u8>>,
}

impl VtParser {
    /// The bytes given to the parser so far, in order.
    pub closed spec fn fed(&self) -> Seq<u8> {
        self.fed@
    }
}

/// The actions, by their models and in order, that `vte::Parser::advance`
/// reports for `bytes` from a parser made by `vte::Parser::new` and since
/// given `fed`.
pub uninterp spec fn vte_actions(fed: Seq<u8>, bytes: Seq<u8>) -> Seq<ActionView>;

/// Calls `vte::Parser::new`: a parser in its ground state, given nothing yet.
#[verifier::external_body]
pub(crate) fn new_parser() -> (p: VtParser)
    ensures
        p.fed() == Seq::<u8>::empty(),
{
    VtParser { parser: vte::Parser::new(), fed: Ghost(Seq::empty()) }
}

/// Calls `vte::Parser::advance` on `bytes` and returns the actions it
/// reported, in order. The parser has then been given `bytes` as well; the
/// actions are those named by [`vte_actions`] for what it had been given
/// before and `bytes`.
#[verifier::external_body]
pub(crate) fn advance(p: &mut VtParser, bytes: &[u8]) -> (r: Vec<VtAction>)
    ensures
        final(p).fed() == old(p).fed() + bytes@,
        actions_view(r@) == vte_actions(old(p).fed(), bytes@),
{
    let mut collector = VtCollector { actions: Vec::new() };
    p.parser.advance(&mut collector, bytes);
    collector.actions
}

} // verus!
