//! The expression tree that one parsed input line turns into.

use vstd::prelude::*;

verus! {

/// One parsed line of shell input.
///
/// `Command` is the leaf: its first argument is the program (or alias) name.
/// A `Pipeline` holds at least two stages, each of which is a `Command`;
/// `Sequence` runs its children unconditionally in order, and `And`/`Or`
/// continue into their right operand depending on the left one's outcome.
#[derive(Debug, PartialEq)]
pub enum CommandExpr {
    Sequence(Vec<CommandExpr>),
    Pipeline(Vec<CommandExpr>),
    And(Box<CommandExpr>, Box<CommandExpr>),
    Or(Box<CommandExpr>, Box<CommandExpr>),
    Command(Vec<String>),
}

/// The mathematical shape of an expression tree: the same structure with
/// every string read as its sequence of characters.
pub enum SpecExpr {
    Sequence(Seq<SpecExpr>),
    Pipeline(Seq<SpecExpr>),
    And(Box<SpecExpr>, Box<SpecExpr>),
    Or(Box<SpecExpr>, Box<SpecExpr>),
    Command(Seq<Seq<char>>),
}

pub open spec fn view_expr_list(es: Seq<CommandExpr>) -> Seq<SpecExpr>
    decreases es,
{
    if es.len() == 0 {
        Seq::empty()
    } else {
        view_expr_list(es.drop_last()).push(es.last()@)
    }
}

impl View for CommandExpr {
    type V = SpecExpr;

    open spec fn view(&self) -> SpecExpr
        decreases self,
    {
        match self {
            CommandExpr::Sequence(es) => SpecExpr::Sequence(view_expr_list(es@)),
            CommandExpr::Pipeline(es) => SpecExpr::Pipeline(view_expr_list(es@)),
            CommandExpr::And(l, r) => SpecExpr::And(Box::new((**l)@), Box::new((**r)@)),
            CommandExpr::Or(l, r) => SpecExpr::Or(Box::new((**l)@), Box::new((**r)@)),
            CommandExpr::Command(args) => SpecExpr::Command(args.deep_view()),
        }
    }
}

pub proof fn lemma_view_expr_list(es: Seq<CommandExpr>)
    ensures
        view_expr_list(es).len() == es.len(),
        forall|i: int| 0 <= i < es.len() ==> view_expr_list(es)[i] == es[i]@,
    decreases es.len(),
{
    if es.len() > 0 {
        let rest = es.drop_last();
        lemma_view_expr_list(rest);
        assert(view_expr_list(es) == view_expr_list(rest).push(es.last()@));
        assert forall|i: int| 0 <= i < es.len() implies view_expr_list(es)[i] == es[i]@ by {
            if i < es.len() - 1 {
                assert(view_expr_list(es)[i] == view_expr_list(rest)[i]);
                assert(rest[i] == es[i]);
            } else {
                assert(view_expr_list(es)[i] == es.last()@);
            }
        }
    }
}

pub proof fn lemma_view_expr_list_push(es: Seq<CommandExpr>, x: CommandExpr)
    ensures
        view_expr_list(es.push(x)) == view_expr_list(es).push(x@),
{
    assert(es.push(x).drop_last() =~= es);
    assert(es.push(x).last() == x);
}

/// A well-formed expression has no empty argument list at any `Command` leaf.
/// The parser only produces well-formed trees, and the evaluator asks for one.
pub open spec fn wf_expr(e: SpecExpr) -> bool
    decreases e,
{
    match e {
        SpecExpr::Command(args) => args.len() >= 1,
        SpecExpr::Sequence(es) => wf_expr_list(es),
        SpecExpr::Pipeline(es) => wf_expr_list(es),
        SpecExpr::And(l, r) => wf_expr(*l) && wf_expr(*r),
        SpecExpr::Or(l, r) => wf_expr(*l) && wf_expr(*r),
    }
}

pub open spec fn wf_expr_list(es: Seq<SpecExpr>) -> bool
    decreases es,
{
    if es.len() == 0 {
        true
    } else {
        wf_expr(es[0]) && wf_expr_list(es.drop_first())
    }
}

pub proof fn lemma_wf_expr_list_index(es: Seq<SpecExpr>, i: int)
    requires
        wf_expr_list(es),
        0 <= i < es.len(),
    ensures
        wf_expr(es[i]),
    decreases es,
{
    if i > 0 {
        lemma_wf_expr_list_index(es.drop_first(), i - 1);
    }
}

} // verus!
