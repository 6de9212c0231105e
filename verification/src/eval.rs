//! Evaluation: walking an expression tree, expanding aliases, dispatching
//! builtins, planning pipelines, and combining outcomes.
//!
//! The evaluator itself spawns nothing. Running one external command,
//! running a planned pipeline and changing the working directory are
//! performed by callbacks handed in by the caller; `spec_eval` states what
//! the evaluator returns for every possible sequence of outcomes of those
//! calls, read from an oracle in the order they happen.

use crate::alias::{
    expand_command, lemma_expand_wf, spec_expand, AliasTable, Expanded, SpecExpanded,
};
use crate::command::{
    lemma_view_expr_list, lemma_wf_expr_list_index, view_expr_list, wf_expr, wf_expr_list,
    CommandExpr, SpecExpr,
};
use vstd::prelude::*;
use vstd::string::*;

verus! {

/// The outcome of evaluating one expression: whether everything that ran
/// reported success, and whether the `exit` builtin was reached.
#[derive(Clone, Copy, Debug, PartialEq, Eq, Structural)]
pub struct EvalResult {
    pub success: bool,
    pub should_exit: bool,
}

/// One side effect the evaluator asks its caller to perform: run one
/// external command, run the stages of a pipeline wired together, or
/// change the working directory (to the given argument, or to the home
/// directory when there is none).
pub enum SpecAction {
    RunCmd(Seq<Seq<char>>),
    RunPipe(Seq<Seq<Seq<char>>>),
    Cd(Option<Seq<char>>),
}

/// The name of the `exit` builtin.
pub open spec fn exit_cmd() -> Seq<char> {
    seq!['e', 'x', 'i', 't']
}

/// The name of the `cd` builtin.
pub open spec fn cd_cmd() -> Seq<char> {
    seq!['c', 'd']
}

/// What planning a pipeline's stages yields: the expanded argument lists
/// of every stage; or the compound expression some stage's alias expanded
/// to, which is then evaluated in place of the whole pipeline; or the
/// discovery of a stage that is not a plain command, which fails the
/// pipeline without running anything.
pub enum SpecStagePlan {
    Stages(Seq<Seq<Seq<char>>>),
    Compound(SpecExpr),
    NotCommand,
}

/// Expands every stage of a pipeline in order, stopping at the first
/// deviation.
pub open spec fn spec_plan_stages(cs: Seq<SpecExpr>, aliases: Map<Seq<char>, Seq<char>>) -> SpecStagePlan
    decreases cs.len(),
{
    if cs.len() == 0 {
        SpecStagePlan::Stages(Seq::empty())
    } else {
        match cs[0] {
            SpecExpr::Command(args) => match spec_expand(args, aliases) {
                SpecExpanded::Plain(a2) => match spec_plan_stages(cs.drop_first(), aliases) {
                    SpecStagePlan::Stages(rest) => SpecStagePlan::Stages(seq![a2] + rest),
                    other => other,
                },
                SpecExpanded::Compound(e2) => SpecStagePlan::Compound(e2),
            },
            _ => SpecStagePlan::NotCommand,
        }
    }
}

/// Evaluating one expression against an oracle of outside outcomes.
///
/// Each action in the returned trace consumes one slot of `orc`, in
/// order: for a command or a pipeline the slot is its success, for a
/// directory change the slot is ignored (`cd` never fails the result).
/// `fuel` bounds how often evaluation may re-enter an alias whose
/// expansion is a compound expression; when it runs out, the result is
/// failure without exit.
///
/// A `Sequence` runs every child in order and succeeds only if all do,
/// but stops at the first child that asks to exit, returning that
/// child's result. `And` short-circuits exactly on a left outcome of
/// failure-without-exit, `Or` exactly on success-without-exit; any other
/// left outcome falls through to the right operand, whose result is
/// returned. A pipeline runs as one action once every stage has been
/// expanded to a plain command.
pub open spec fn spec_eval(
    e: SpecExpr,
    aliases: Map<Seq<char>, Seq<char>>,
    orc: Seq<bool>,
    fuel: nat,
) -> (EvalResult, Seq<SpecAction>)
    decreases fuel, e,
{
    match e {
        SpecExpr::Command(args) => match spec_expand(args, aliases) {
            SpecExpanded::Plain(a2) => {
                if a2.len() == 0 {
                    (EvalResult { success: false, should_exit: false }, Seq::empty())
                } else if a2[0] == exit_cmd() {
                    (EvalResult { success: true, should_exit: true }, Seq::empty())
                } else if a2[0] == cd_cmd() {
                    (
                        EvalResult { success: true, should_exit: false },
                        seq![
                            SpecAction::Cd(
                                if a2.len() > 1 {
                                    Some(a2[1])
                                } else {
                                    None
                                },
                            ),
                        ],
                    )
                } else {
                    (
                        EvalResult { success: orc[0], should_exit: false },
                        seq![SpecAction::RunCmd(a2)],
                    )
                }
            },
            SpecExpanded::Compound(e2) => {
                if fuel == 0 {
                    (EvalResult { success: false, should_exit: false }, Seq::empty())
                } else {
                    spec_eval(e2, aliases, orc, (fuel - 1) as nat)
                }
            },
        },
        SpecExpr::Sequence(cs) => spec_eval_list(cs, aliases, orc, fuel),
        SpecExpr::And(l, r) => {
            let lo = spec_eval(*l, aliases, orc, fuel);
            if lo.0 == (EvalResult { success: false, should_exit: false }) {
                lo
            } else {
                let ro = spec_eval(*r, aliases, orc.skip(lo.1.len() as int), fuel);
                (ro.0, lo.1 + ro.1)
            }
        },
        SpecExpr::Or(l, r) => {
            let lo = spec_eval(*l, aliases, orc, fuel);
            if lo.0 == (EvalResult { success: true, should_exit: false }) {
                lo
            } else {
                let ro = spec_eval(*r, aliases, orc.skip(lo.1.len() as int), fuel);
                (ro.0, lo.1 + ro.1)
            }
        },
        SpecExpr::Pipeline(cs) => match spec_plan_stages(cs, aliases) {
            SpecStagePlan::Stages(st) => (
                EvalResult { success: orc[0], should_exit: false },
                seq![SpecAction::RunPipe(st)],
            ),
            SpecStagePlan::Compound(e2) => {
                if fuel == 0 {
                    (EvalResult { success: false, should_exit: false }, Seq::empty())
                } else {
                    spec_eval(e2, aliases, orc, (fuel - 1) as nat)
                }
            },
            SpecStagePlan::NotCommand => (
                EvalResult { success: false, should_exit: false },
                Seq::empty(),
            ),
        },
    }
}

/// Evaluating the children of a `Sequence`, front to back.
pub open spec fn spec_eval_list(
    cs: Seq<SpecExpr>,
    aliases: Map<Seq<char>, Seq<char>>,
    orc: Seq<bool>,
    fuel: nat,
) -> (EvalResult, Seq<SpecAction>)
    decreases fuel, cs,
{
    if cs.len() == 0 {
        (EvalResult { success: true, should_exit: false }, Seq::empty())
    } else {
        let ho = spec_eval(cs[0], aliases, orc, fuel);
        if ho.0.should_exit {
            ho
        } else {
            let to = spec_eval_list(cs.drop_first(), aliases, orc.skip(ho.1.len() as int), fuel);
            if to.0.should_exit {
                (to.0, ho.1 + to.1)
            } else {
                (
                    EvalResult { success: ho.0.success && to.0.success, should_exit: false },
                    ho.1 + to.1,
                )
            }
        }
    }
}

/// Evaluation only reads the oracle slots its trace consumes: two
/// oracles that agree on those slots yield the same outcome.
pub proof fn lemma_eval_oracle(
    e: SpecExpr,
    aliases: Map<Seq<char>, Seq<char>>,
    orc1: Seq<bool>,
    orc2: Seq<bool>,
    fuel: nat,
)
    requires
        spec_eval(e, aliases, orc1, fuel).1.len() <= orc1.len(),
        spec_eval(e, aliases, orc1, fuel).1.len() <= orc2.len(),
        forall|q: int| 0 <= q < spec_eval(e, aliases, orc1, fuel).1.len() ==> orc2[q] == orc1[q],
    ensures
        spec_eval(e, aliases, orc2, fuel) == spec_eval(e, aliases, orc1, fuel),
    decreases fuel, e,
{
    match e {
        SpecExpr::Command(args) => {
            if fuel > 0 && spec_expand(args, aliases) is Compound {
                let e2 = spec_expand(args, aliases)->Compound_0;
                lemma_eval_oracle(e2, aliases, orc1, orc2, (fuel - 1) as nat);
            }
        },
        SpecExpr::Sequence(cs) => {
            lemma_eval_list_oracle(cs, aliases, orc1, orc2, fuel);
        },
        SpecExpr::And(l, r) => {
            let lo = spec_eval(*l, aliases, orc1, fuel);
            lemma_eval_oracle(*l, aliases, orc1, orc2, fuel);
            if lo.0 != (EvalResult { success: false, should_exit: false }) {
                let n = lo.1.len() as int;
                assert forall|q: int|
                    0 <= q < spec_eval(*r, aliases, orc1.skip(n), fuel).1.len() implies orc2.skip(
                    n,
                )[q] == orc1.skip(n)[q] by {
                    assert(orc1.skip(n)[q] == orc1[n + q]);
                    assert(orc2.skip(n)[q] == orc2[n + q]);
                }
                lemma_eval_oracle(*r, aliases, orc1.skip(n), orc2.skip(n), fuel);
            }
        },
        SpecExpr::Or(l, r) => {
            let lo = spec_eval(*l, aliases, orc1, fuel);
            lemma_eval_oracle(*l, aliases, orc1, orc2, fuel);
            if lo.0 != (EvalResult { success: true, should_exit: false }) {
                let n = lo.1.len() as int;
                assert forall|q: int|
                    0 <= q < spec_eval(*r, aliases, orc1.skip(n), fuel).1.len() implies orc2.skip(
                    n,
                )[q] == orc1.skip(n)[q] by {
                    assert(orc1.skip(n)[q] == orc1[n + q]);
                    assert(orc2.skip(n)[q] == orc2[n + q]);
                }
                lemma_eval_oracle(*r, aliases, orc1.skip(n), orc2.skip(n), fuel);
            }
        },
        SpecExpr::Pipeline(cs) => {
            if fuel > 0 && spec_plan_stages(cs, aliases) is Compound {
                let e2 = spec_plan_stages(cs, aliases)->Compound_0;
                lemma_eval_oracle(e2, aliases, orc1, orc2, (fuel - 1) as nat);
            }
        },
    }
}

/// The list form of `lemma_eval_oracle`.
pub proof fn lemma_eval_list_oracle(
    cs: Seq<SpecExpr>,
    aliases: Map<Seq<char>, Seq<char>>,
    orc1: Seq<bool>,
    orc2: Seq<bool>,
    fuel: nat,
)
    requires
        spec_eval_list(cs, aliases, orc1, fuel).1.len() <= orc1.len(),
        spec_eval_list(cs, aliases, orc1, fuel).1.len() <= orc2.len(),
        forall|q: int|
            0 <= q < spec_eval_list(cs, aliases, orc1, fuel).1.len() ==> orc2[q] == orc1[q],
    ensures
        spec_eval_list(cs, aliases, orc2, fuel) == spec_eval_list(cs, aliases, orc1, fuel),
    decreases fuel, cs,
{
    if cs.len() > 0 {
        let ho = spec_eval(cs[0], aliases, orc1, fuel);
        lemma_eval_oracle(cs[0], aliases, orc1, orc2, fuel);
        if !ho.0.should_exit {
            let n = ho.1.len() as int;
            assert forall|q: int|
                0 <= q < spec_eval_list(cs.drop_first(), aliases, orc1.skip(n), fuel).1.len()
                implies orc2.skip(n)[q] == orc1.skip(n)[q] by {
                assert(orc1.skip(n)[q] == orc1[n + q]);
                assert(orc2.skip(n)[q] == orc2[n + q]);
            }
            lemma_eval_list_oracle(cs.drop_first(), aliases, orc1.skip(n), orc2.skip(n), fuel);
        }
    }
}

fn is_exit_cmd(t: &String) -> (b: bool)
    ensures
        b == (t@ == exit_cmd()),
{
    let e = String::from_str("exit");
    proof {
        reveal_strlit("exit");
        assert(e@ =~= exit_cmd());
    }
    *t == e
}

fn is_cd_cmd(t: &String) -> (b: bool)
    ensures
        b == (t@ == cd_cmd()),
{
    let c = String::from_str("cd");
    proof {
        reveal_strlit("cd");
        assert(c@ =~= cd_cmd());
    }
    *t == c
}

/// A fresh copy of an argument list.
fn clone_args(args: &Vec<String>) -> (r: Vec<String>)
    ensures
        r@ == args@,
        r.deep_view() == args.deep_view(),
{
    let mut r: Vec<String> = Vec::new();
    let mut m: usize = 0;
    while m < args.len()
        invariant
            m <= args@.len(),
            r@ =~= args@.subrange(0, m as int),
        decreases args@.len() - m,
    {
        r.push(args[m].clone());
        proof {
            assert(r@ =~= args@.subrange(0, m + 1 as int));
        }
        m = m + 1;
    }
    proof {
        assert(r@ =~= args@);
    }
    r
}

/// Aggregate success of a pipeline: every stage must have been waited on
/// and have reported success. A shorter outcome list means some stage
/// was never spawned or never waited on, which fails the pipeline.
pub fn pipeline_success(outs: &Vec<bool>, stages: usize) -> (r: bool)
    ensures
        r == (outs@.len() == stages && forall|q: int| 0 <= q < outs@.len() ==> outs@[q]),
{
    if outs.len() != stages {
        return false;
    }
    let mut q: usize = 0;
    while q < outs.len()
        invariant
            q <= outs@.len(),
            forall|j: int| 0 <= j < q ==> outs@[j],
        decreases outs@.len() - q,
    {
        if !outs[q] {
            return false;
        }
        q = q + 1;
    }
    true
}

/// What planning a pipeline's stages yields, as executable data.
pub enum PipelinePlan {
    Stages(Vec<Vec<String>>),
    Compound(CommandExpr),
    NotCommand,
}

impl View for PipelinePlan {
    type V = SpecStagePlan;

    open spec fn view(&self) -> SpecStagePlan {
        match self {
            PipelinePlan::Stages(st) => SpecStagePlan::Stages(st.deep_view()),
            PipelinePlan::Compound(e) => SpecStagePlan::Compound(e@),
            PipelinePlan::NotCommand => SpecStagePlan::NotCommand,
        }
    }
}

/// A compound expression that stops pipeline planning is well-formed.
proof fn lemma_plan_wf(cs: Seq<SpecExpr>, aliases: Map<Seq<char>, Seq<char>>)
    requires
        wf_expr_list(cs),
    ensures
        spec_plan_stages(cs, aliases) matches SpecStagePlan::Compound(e2) ==> wf_expr(e2),
    decreases cs.len(),
{
    if cs.len() > 0 {
        assert(wf_expr(cs[0]));
        match cs[0] {
            SpecExpr::Command(args) => {
                lemma_expand_wf(args, aliases);
                lemma_plan_wf(cs.drop_first(), aliases);
            },
            _ => {},
        }
    }
}

/// Expands every stage of the pipeline from position `i` on, exactly as
/// `spec_plan_stages` describes.
fn plan_stages(cs: &Vec<CommandExpr>, i: usize, aliases: &AliasTable) -> (r: PipelinePlan)
    requires
        i <= cs.len(),
        wf_expr_list(view_expr_list(cs@)),
    ensures
        r@ == spec_plan_stages(view_expr_list(cs@).skip(i as int), aliases@),
    decreases cs@.len() - i,
{
    let ghost vl = view_expr_list(cs@);
    proof {
        lemma_view_expr_list(cs@);
    }
    if i == cs.len() {
        let empty: Vec<Vec<String>> = Vec::new();
        proof {
            assert(vl.skip(i as int) =~= Seq::<SpecExpr>::empty());
            assert(empty.deep_view() =~= Seq::<Seq<Seq<char>>>::empty());
        }
        return PipelinePlan::Stages(empty);
    }
    proof {
        assert(vl.skip(i as int)[0] == vl[i as int]);
        lemma_wf_expr_list_index(vl, i as int);
    }
    match &cs[i] {
        CommandExpr::Command(args) => {
            let a = clone_args(args);
            match expand_command(a, aliases) {
                Expanded::Plain(a2) => {
                    match plan_stages(cs, i + 1, aliases) {
                        PipelinePlan::Stages(mut rest) => {
                            let ghost restv = rest.deep_view();
                            let ghost a2v = a2.deep_view();
                            rest.insert(0, a2);
                            proof {
                                assert(rest.deep_view() =~= seq![a2v] + restv);
                                assert(vl.skip(i as int).drop_first() =~= vl.skip(i + 1 as int));
                            }
                            PipelinePlan::Stages(rest)
                        },
                        PipelinePlan::Compound(e2) => {
                            proof {
                                assert(vl.skip(i as int).drop_first() =~= vl.skip(i + 1 as int));
                            }
                            PipelinePlan::Compound(e2)
                        },
                        PipelinePlan::NotCommand => {
                            proof {
                                assert(vl.skip(i as int).drop_first() =~= vl.skip(i + 1 as int));
                            }
                            PipelinePlan::NotCommand
                        },
                    }
                },
                Expanded::Compound(e2) => PipelinePlan::Compound(e2),
            }
        },
        _ => PipelinePlan::NotCommand,
    }
}

/// Evaluates one well-formed expression. Running an external command,
/// running a planned pipeline, and changing the working directory are
/// performed by the three callbacks; nothing is promised of their
/// outcomes, and the result is exactly what `spec_eval` yields for the
/// outcomes they did return. `fuel` bounds how often evaluation may
/// re-enter an alias whose expansion is a compound expression.
pub fn eval_expr<FRun, FPipe, FCd>(
    expr: &CommandExpr,
    aliases: &AliasTable,
    fuel: u64,
    run: FRun,
    run_pipe: FPipe,
    chdir: FCd,
) -> (r: EvalResult) where
    FRun: Fn(Vec<String>) -> bool + Copy,
    FPipe: Fn(Vec<Vec<String>>) -> Vec<bool> + Copy,
    FCd: Fn(Option<String>) -> bool + Copy,

    requires
        wf_expr(expr@),
        forall|a: Vec<String>| #[trigger] call_requires(run, (a,)),
        forall|st: Vec<Vec<String>>| #[trigger] call_requires(run_pipe, (st,)),
        forall|d: Option<String>| #[trigger] call_requires(chdir, (d,)),
    ensures
        exists|orc: Seq<bool>|
            orc.len() == (#[trigger] spec_eval(expr@, aliases@, orc, fuel as nat)).1.len() && r
                == spec_eval(expr@, aliases@, orc, fuel as nat).0,
    decreases fuel, expr, 0int,
{
    let ghost ev = expr@;
    let ghost am = aliases@;
    let ghost fueln = fuel as nat;
    match expr {
        CommandExpr::Command(args) => {
            let a = clone_args(args);
            match expand_command(a, aliases) {
                Expanded::Plain(a2) => {
                    proof {
                        lemma_expand_wf(args.deep_view(), am);
                        assert(a2.deep_view().len() >= 1);
                    }
                    if is_exit_cmd(&a2[0]) {
                        let r = EvalResult { success: true, should_exit: true };
                        proof {
                            let orc0 = Seq::<bool>::empty();
                            assert(orc0.len() == spec_eval(ev, am, orc0, fueln).1.len() && r
                                == spec_eval(ev, am, orc0, fueln).0);
                        }
                        r
                    } else if is_cd_cmd(&a2[0]) {
                        let dir = if a2.len() > 1 {
                            Some(a2[1].clone())
                        } else {
                            None
                        };
                        chdir(dir);
                        let r = EvalResult { success: true, should_exit: false };
                        proof {
                            let orc0 = seq![true];
                            assert(orc0.len() == spec_eval(ev, am, orc0, fueln).1.len() && r
                                == spec_eval(ev, am, orc0, fueln).0);
                        }
                        r
                    } else {
                        let b = run(a2);
                        let r = EvalResult { success: b, should_exit: false };
                        proof {
                            let orc0 = seq![b];
                            assert(orc0.len() == spec_eval(ev, am, orc0, fueln).1.len() && r
                                == spec_eval(ev, am, orc0, fueln).0);
                        }
                        r
                    }
                },
                Expanded::Compound(e2) => {
                    proof {
                        lemma_expand_wf(args.deep_view(), am);
                    }
                    if fuel == 0 {
                        let r = EvalResult { success: false, should_exit: false };
                        proof {
                            let orc0 = Seq::<bool>::empty();
                            assert(orc0.len() == spec_eval(ev, am, orc0, fueln).1.len() && r
                                == spec_eval(ev, am, orc0, fueln).0);
                        }
                        r
                    } else {
                        let r = eval_expr(&e2, aliases, fuel - 1, run, run_pipe, chdir);
                        proof {
                            let orc0 = choose|o: Seq<bool>|
                                o.len() == (#[trigger] spec_eval(e2@, am, o, (fuel - 1) as nat)).1.len()
                                    && r == spec_eval(e2@, am, o, (fuel - 1) as nat).0;
                            assert(spec_eval(ev, am, orc0, fueln) == spec_eval(
                                e2@,
                                am,
                                orc0,
                                (fuel - 1) as nat,
                            ));
                            assert(orc0.len() == spec_eval(ev, am, orc0, fueln).1.len() && r
                                == spec_eval(ev, am, orc0, fueln).0);
                        }
                        r
                    }
                },
            }
        },
        CommandExpr::Sequence(cs) => {
            let r = eval_list(cs, 0, aliases, fuel, run, run_pipe, chdir);
            proof {
                let vl = view_expr_list(cs@);
                assert(vl.skip(0) =~= vl);
                let orc0 = choose|o: Seq<bool>|
                    o.len() == (#[trigger] spec_eval_list(vl.skip(0), am, o, fueln)).1.len() && r
                        == spec_eval_list(vl.skip(0), am, o, fueln).0;
                assert(spec_eval(ev, am, orc0, fueln) == spec_eval_list(vl, am, orc0, fueln));
                assert(orc0.len() == spec_eval(ev, am, orc0, fueln).1.len() && r == spec_eval(
                    ev,
                    am,
                    orc0,
                    fueln,
                ).0);
            }
            r
        },
        CommandExpr::And(l, rhs) => {
            let rl = eval_expr(&**l, aliases, fuel, run, run_pipe, chdir);
            if rl == (EvalResult { success: false, should_exit: false }) {
                proof {
                    let orc0 = choose|o: Seq<bool>|
                        o.len() == (#[trigger] spec_eval((**l)@, am, o, fueln)).1.len() && rl
                            == spec_eval((**l)@, am, o, fueln).0;
                    assert(orc0.len() == spec_eval(ev, am, orc0, fueln).1.len() && rl == spec_eval(
                        ev,
                        am,
                        orc0,
                        fueln,
                    ).0);
                }
                rl
            } else {
                let rr = eval_expr(&**rhs, aliases, fuel, run, run_pipe, chdir);
                proof {
                    let orc_l = choose|o: Seq<bool>|
                        o.len() == (#[trigger] spec_eval((**l)@, am, o, fueln)).1.len() && rl
                            == spec_eval((**l)@, am, o, fueln).0;
                    let orc_r = choose|o: Seq<bool>|
                        o.len() == (#[trigger] spec_eval((**rhs)@, am, o, fueln)).1.len() && rr
                            == spec_eval((**rhs)@, am, o, fueln).0;
                    let tl = spec_eval((**l)@, am, orc_l, fueln).1;
                    let orc = orc_l + orc_r;
                    assert forall|q: int| 0 <= q < tl.len() implies orc[q] == orc_l[q] by {}
                    lemma_eval_oracle((**l)@, am, orc_l, orc, fueln);
                    assert(orc.skip(tl.len() as int) =~= orc_r);
                    assert(orc.len() == spec_eval(ev, am, orc, fueln).1.len() && rr == spec_eval(
                        ev,
                        am,
                        orc,
                        fueln,
                    ).0);
                }
                rr
            }
        },
        CommandExpr::Or(l, rhs) => {
            let rl = eval_expr(&**l, aliases, fuel, run, run_pipe, chdir);
            if rl == (EvalResult { success: true, should_exit: false }) {
                proof {
                    let orc0 = choose|o: Seq<bool>|
                        o.len() == (#[trigger] spec_eval((**l)@, am, o, fueln)).1.len() && rl
                            == spec_eval((**l)@, am, o, fueln).0;
                    assert(orc0.len() == spec_eval(ev, am, orc0, fueln).1.len() && rl == spec_eval(
                        ev,
                        am,
                        orc0,
                        fueln,
                    ).0);
                }
                rl
            } else {
                let rr = eval_expr(&**rhs, aliases, fuel, run, run_pipe, chdir);
                proof {
                    let orc_l = choose|o: Seq<bool>|
                        o.len() == (#[trigger] spec_eval((**l)@, am, o, fueln)).1.len() && rl
                            == spec_eval((**l)@, am, o, fueln).0;
                    let orc_r = choose|o: Seq<bool>|
                        o.len() == (#[trigger] spec_eval((**rhs)@, am, o, fueln)).1.len() && rr
                            == spec_eval((**rhs)@, am, o, fueln).0;
                    let tl = spec_eval((**l)@, am, orc_l, fueln).1;
                    let orc = orc_l + orc_r;
                    assert forall|q: int| 0 <= q < tl.len() implies orc[q] == orc_l[q] by {}
                    lemma_eval_oracle((**l)@, am, orc_l, orc, fueln);
                    assert(orc.skip(tl.len() as int) =~= orc_r);
                    assert(orc.len() == spec_eval(ev, am, orc, fueln).1.len() && rr == spec_eval(
                        ev,
                        am,
                        orc,
                        fueln,
                    ).0);
                }
                rr
            }
        },
        CommandExpr::Pipeline(cs) => {
            match plan_stages(cs, 0, aliases) {
                PipelinePlan::Stages(stages) => {
                    let n_st = stages.len();
                    let outs = run_pipe(stages);
                    let ok = pipeline_success(&outs, n_st);
                    let r = EvalResult { success: ok, should_exit: false };
                    proof {
                        let vl = view_expr_list(cs@);
                        assert(vl.skip(0) =~= vl);
                        let orc0 = seq![ok];
                        assert(orc0.len() == spec_eval(ev, am, orc0, fueln).1.len() && r
                            == spec_eval(ev, am, orc0, fueln).0);
                    }
                    r
                },
                PipelinePlan::Compound(e2) => {
                    proof {
                        let vl = view_expr_list(cs@);
                        assert(vl.skip(0) =~= vl);
                        lemma_plan_wf(vl, am);
                    }
                    if fuel == 0 {
                        let r = EvalResult { success: false, should_exit: false };
                        proof {
                            let orc0 = Seq::<bool>::empty();
                            assert(orc0.len() == spec_eval(ev, am, orc0, fueln).1.len() && r
                                == spec_eval(ev, am, orc0, fueln).0);
                        }
                        r
                    } else {
                        let r = eval_expr(&e2, aliases, fuel - 1, run, run_pipe, chdir);
                        proof {
                            let orc0 = choose|o: Seq<bool>|
                                o.len() == (#[trigger] spec_eval(e2@, am, o, (fuel - 1) as nat)).1.len()
                                    && r == spec_eval(e2@, am, o, (fuel - 1) as nat).0;
                            assert(spec_eval(ev, am, orc0, fueln) == spec_eval(
                                e2@,
                                am,
                                orc0,
                                (fuel - 1) as nat,
                            ));
                            assert(orc0.len() == spec_eval(ev, am, orc0, fueln).1.len() && r
                                == spec_eval(ev, am, orc0, fueln).0);
                        }
                        r
                    }
                },
                PipelinePlan::NotCommand => {
                    let r = EvalResult { success: false, should_exit: false };
                    proof {
                        let vl = view_expr_list(cs@);
                        assert(vl.skip(0) =~= vl);
                        let orc0 = Seq::<bool>::empty();
                        assert(orc0.len() == spec_eval(ev, am, orc0, fueln).1.len() && r
                            == spec_eval(ev, am, orc0, fueln).0);
                    }
                    r
                },
            }
        },
    }
}

/// Evaluates the children of a `Sequence` from position `i` on, exactly
/// as `spec_eval_list` describes.
fn eval_list<FRun, FPipe, FCd>(
    cs: &Vec<CommandExpr>,
    i: usize,
    aliases: &AliasTable,
    fuel: u64,
    run: FRun,
    run_pipe: FPipe,
    chdir: FCd,
) -> (r: EvalResult) where
    FRun: Fn(Vec<String>) -> bool + Copy,
    FPipe: Fn(Vec<Vec<String>>) -> Vec<bool> + Copy,
    FCd: Fn(Option<String>) -> bool + Copy,

    requires
        i <= cs.len(),
        wf_expr_list(view_expr_list(cs@)),
        forall|a: Vec<String>| #[trigger] call_requires(run, (a,)),
        forall|st: Vec<Vec<String>>| #[trigger] call_requires(run_pipe, (st,)),
        forall|d: Option<String>| #[trigger] call_requires(chdir, (d,)),
    ensures
        exists|orc: Seq<bool>|
            orc.len() == (#[trigger] spec_eval_list(
                view_expr_list(cs@).skip(i as int),
                aliases@,
                orc,
                fuel as nat,
            )).1.len() && r == spec_eval_list(
                view_expr_list(cs@).skip(i as int),
                aliases@,
                orc,
                fuel as nat,
            ).0,
    decreases fuel, cs@, cs@.len() - i,
{
    let ghost vl = view_expr_list(cs@);
    let ghost s = vl.skip(i as int);
    let ghost am = aliases@;
    let ghost fueln = fuel as nat;
    proof {
        lemma_view_expr_list(cs@);
    }
    if i == cs.len() {
        let r = EvalResult { success: true, should_exit: false };
        proof {
            assert(s =~= Seq::<SpecExpr>::empty());
            let orc0 = Seq::<bool>::empty();
            assert(orc0.len() == spec_eval_list(s, am, orc0, fueln).1.len() && r == spec_eval_list(
                s,
                am,
                orc0,
                fueln,
            ).0);
        }
        return r;
    }
    proof {
        assert(s[0] == vl[i as int]);
        lemma_wf_expr_list_index(vl, i as int);
    }
    let r0 = eval_expr(&cs[i], aliases, fuel, run, run_pipe, chdir);
    if r0.should_exit {
        proof {
            let orc0 = choose|o: Seq<bool>|
                o.len() == (#[trigger] spec_eval(cs@[i as int]@, am, o, fueln)).1.len() && r0
                    == spec_eval(cs@[i as int]@, am, o, fueln).0;
            assert(orc0.len() == spec_eval_list(s, am, orc0, fueln).1.len() && r0
                == spec_eval_list(s, am, orc0, fueln).0);
        }
        return r0;
    }
    let r1 = eval_list(cs, i + 1, aliases, fuel, run, run_pipe, chdir);
    let r = if r1.should_exit {
        r1
    } else {
        EvalResult { success: r0.success && r1.success, should_exit: false }
    };
    proof {
        let orc0 = choose|o: Seq<bool>|
            o.len() == (#[trigger] spec_eval(cs@[i as int]@, am, o, fueln)).1.len() && r0
                == spec_eval(cs@[i as int]@, am, o, fueln).0;
        let orc1 = choose|o: Seq<bool>|
            o.len() == (#[trigger] spec_eval_list(vl.skip(i + 1 as int), am, o, fueln)).1.len()
                && r1 == spec_eval_list(vl.skip(i + 1 as int), am, o, fueln).0;
        let t0 = spec_eval(cs@[i as int]@, am, orc0, fueln).1;
        let orc = orc0 + orc1;
        assert forall|q: int| 0 <= q < t0.len() implies orc[q] == orc0[q] by {}
        lemma_eval_oracle(cs@[i as int]@, am, orc0, orc, fueln);
        assert(orc.skip(t0.len() as int) =~= orc1);
        assert(s.drop_first() =~= vl.skip(i + 1 as int));
        assert(orc.len() == spec_eval_list(s, am, orc, fueln).1.len() && r == spec_eval_list(
            s,
            am,
            orc,
            fueln,
        ).0);
    }
    r
}

/// `a ; b` evaluates both children whatever `a`'s outcome, and the
/// aggregate success is the conjunction of theirs — provided neither
/// child asks to exit (an exit stops the sequence: see
/// `lemma_sequence_exit_skips`). The trace is `a`'s followed by `b`'s:
/// both ran.
pub proof fn lemma_sequence_both(
    a: SpecExpr,
    b: SpecExpr,
    aliases: Map<Seq<char>, Seq<char>>,
    orc: Seq<bool>,
    fuel: nat,
)
    requires
        !spec_eval(a, aliases, orc, fuel).0.should_exit,
        !spec_eval(
            b,
            aliases,
            orc.skip(spec_eval(a, aliases, orc, fuel).1.len() as int),
            fuel,
        ).0.should_exit,
    ensures
        ({
            let ao = spec_eval(a, aliases, orc, fuel);
            let bo = spec_eval(b, aliases, orc.skip(ao.1.len() as int), fuel);
            spec_eval(SpecExpr::Sequence(seq![a, b]), aliases, orc, fuel) == (
                EvalResult { success: ao.0.success && bo.0.success, should_exit: false },
                ao.1 + bo.1,
            )
        }),
{
    reveal_with_fuel(spec_eval, 2);
    reveal_with_fuel(spec_eval_list, 4);
    let cs = seq![a, b];
    let ao = spec_eval(a, aliases, orc, fuel);
    let orc_b = orc.skip(ao.1.len() as int);
    let bo = spec_eval(b, aliases, orc_b, fuel);
    assert(cs[0] == a);
    assert(cs.drop_first() =~= seq![b]);
    assert(seq![b][0] == b);
    assert(seq![b].drop_first() =~= Seq::<SpecExpr>::empty());
    let lcs = spec_eval_list(cs, aliases, orc, fuel);
    assert(spec_eval(SpecExpr::Sequence(cs), aliases, orc, fuel) == lcs);
    let l2 = spec_eval_list(
        Seq::<SpecExpr>::empty(),
        aliases,
        orc_b.skip(bo.1.len() as int),
        fuel,
    );
    assert(l2 == (
        EvalResult { success: true, should_exit: false },
        Seq::<SpecAction>::empty(),
    ));
    let l1 = spec_eval_list(seq![b], aliases, orc_b, fuel);
    assert(l1 == (
        EvalResult { success: bo.0.success, should_exit: false },
        bo.1 + Seq::<SpecAction>::empty(),
    ));
    assert(bo.1 + Seq::<SpecAction>::empty() =~= bo.1);
    assert(lcs == (
        EvalResult { success: ao.0.success && bo.0.success, should_exit: false },
        ao.1 + bo.1,
    ));
}

/// Within a `Sequence`, once a child's result asks to exit, that result
/// is the whole sequence's result: the later siblings are never
/// evaluated and contribute nothing to the trace. `spec_eval_list` walks
/// the children front to back, so this applies at every step of the
/// walk, not only at the first child.
pub proof fn lemma_sequence_exit_skips(
    cs: Seq<SpecExpr>,
    aliases: Map<Seq<char>, Seq<char>>,
    orc: Seq<bool>,
    fuel: nat,
)
    requires
        cs.len() >= 1,
        spec_eval(cs[0], aliases, orc, fuel).0.should_exit,
    ensures
        spec_eval(SpecExpr::Sequence(cs), aliases, orc, fuel) == spec_eval(
            cs[0],
            aliases,
            orc,
            fuel,
        ),
{
    reveal_with_fuel(spec_eval, 2);
    reveal_with_fuel(spec_eval_list, 2);
}

/// `a && b`: a left outcome of exactly failure-without-exit
/// short-circuits — the right operand contributes nothing to the trace
/// and the aggregate is that failed outcome. Any other left outcome
/// (among them success, and any outcome asking to exit) evaluates the
/// right operand, and the aggregate is exactly the right operand's
/// result.
pub proof fn lemma_and(
    a: SpecExpr,
    b: SpecExpr,
    aliases: Map<Seq<char>, Seq<char>>,
    orc: Seq<bool>,
    fuel: nat,
)
    ensures
        ({
            let ao = spec_eval(a, aliases, orc, fuel);
            let bo = spec_eval(b, aliases, orc.skip(ao.1.len() as int), fuel);
            if ao.0 == (EvalResult { success: false, should_exit: false }) {
                spec_eval(SpecExpr::And(Box::new(a), Box::new(b)), aliases, orc, fuel) == ao
            } else {
                spec_eval(SpecExpr::And(Box::new(a), Box::new(b)), aliases, orc, fuel) == (
                    bo.0,
                    ao.1 + bo.1,
                )
            }
        }),
{
}

/// `a || b`: a left outcome of exactly success-without-exit
/// short-circuits — the right operand contributes nothing to the trace
/// and the aggregate is that successful outcome. Any other left outcome
/// (among them failure, and any outcome asking to exit) evaluates the
/// right operand, and the aggregate is exactly the right operand's
/// result.
pub proof fn lemma_or(
    a: SpecExpr,
    b: SpecExpr,
    aliases: Map<Seq<char>, Seq<char>>,
    orc: Seq<bool>,
    fuel: nat,
)
    ensures
        ({
            let ao = spec_eval(a, aliases, orc, fuel);
            let bo = spec_eval(b, aliases, orc.skip(ao.1.len() as int), fuel);
            if ao.0 == (EvalResult { success: true, should_exit: false }) {
                spec_eval(SpecExpr::Or(Box::new(a), Box::new(b)), aliases, orc, fuel) == ao
            } else {
                spec_eval(SpecExpr::Or(Box::new(a), Box::new(b)), aliases, orc, fuel) == (
                    bo.0,
                    ao.1 + bo.1,
                )
            }
        }),
{
}

/// A pipeline whose stages all expand to plain commands is one single
/// action carrying those stages, in their original order; its success is
/// that one action's outcome slot, and nothing else runs. (The caller
/// computes that outcome from the per-stage exits with
/// `pipeline_success`: every stage must have been waited on and have
/// succeeded.)
pub proof fn lemma_pipeline_one_action(
    cs: Seq<SpecExpr>,
    aliases: Map<Seq<char>, Seq<char>>,
    orc: Seq<bool>,
    fuel: nat,
)
    requires
        spec_plan_stages(cs, aliases) is Stages,
    ensures
        spec_eval(SpecExpr::Pipeline(cs), aliases, orc, fuel) == (
            EvalResult { success: orc[0], should_exit: false },
            seq![SpecAction::RunPipe(spec_plan_stages(cs, aliases)->Stages_0)],
        ),
{
}

} // verus!



