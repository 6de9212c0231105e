//! From tokens to an expression tree.
//!
//! Grammar, highest to lowest binding:
//!
//! ```text
//! sequence := andor (';' andor)*
//! andor    := pipeline (('&&' | '||') sequence)?   // right side re-enters the full grammar
//! pipeline := command ('|' command)*
//! command  := token+                               // stops at ; && || |
//! ```
//!
//! `;` folds left-to-right into one flat `Sequence`; the right operand of
//! `&&`/`||` is the full rest of the line (so `a && b ; c` groups as
//! `a && (b ; c)`); a pipeline with exactly one stage collapses to a bare
//! `Command`. A malformed fragment aborts the whole parse.

use crate::command::{wf_expr, wf_expr_list, CommandExpr, SpecExpr, view_expr_list};
use crate::command::{lemma_view_expr_list, lemma_view_expr_list_push};
use crate::tokenizer::{spec_tokenize, tokenize};
use vstd::prelude::*;
use vstd::string::*;

verus! {

/// Why a line of input was rejected before anything ran.
///
/// `UnexpectedOperator` names the operator found where a command was
/// required (or, when the line ends after an operator, that operator);
/// an empty line handed to the parser carries an empty string.
/// `UnterminatedQuote` reports a quote still open at the end of the line.
#[derive(Debug)]
pub enum ParseError {
    UnexpectedOperator(String),
    UnterminatedQuote,
}

impl ParseError {
    /// The message shown to the user at the prompt.
    pub fn message(&self) -> (m: String)
        ensures
            match self {
                ParseError::UnexpectedOperator(op) => m@ == "syntax error: unexpected '"@ + op@
                    + "'"@,
                ParseError::UnterminatedQuote => m@ == "syntax error: unterminated quote"@,
            },
    {
        match self {
            ParseError::UnexpectedOperator(op) => {
                let mut m = String::from_str("syntax error: unexpected '");
                m.append(op.as_str());
                m.append("'");
                m
            },
            ParseError::UnterminatedQuote => String::from_str("syntax error: unterminated quote"),
        }
    }
}

pub open spec fn semi_tok() -> Seq<char> {
    seq![';']
}

pub open spec fn and_tok() -> Seq<char> {
    seq!['&', '&']
}

pub open spec fn or_tok() -> Seq<char> {
    seq!['|', '|']
}

pub open spec fn pipe_tok() -> Seq<char> {
    seq!['|']
}

/// The control operators, which separate whole commands or pipelines.
pub open spec fn is_ctl(t: Seq<char>) -> bool {
    t == semi_tok() || t == and_tok() || t == or_tok()
}

/// Any operator token: a control operator or the pipe.
pub open spec fn is_op(t: Seq<char>) -> bool {
    is_ctl(t) || t == pipe_tok()
}

/// Index of the first control token at or after `i`, or `toks.len()`.
pub open spec fn find_ctl(toks: Seq<Seq<char>>, i: int) -> int
    decreases toks.len() - i,
{
    if i < 0 || i >= toks.len() {
        toks.len() as int
    } else if is_ctl(toks[i]) {
        i
    } else {
        find_ctl(toks, i + 1)
    }
}

pub proof fn lemma_find_ctl(toks: Seq<Seq<char>>, i: int)
    requires
        0 <= i <= toks.len(),
    ensures
        i <= find_ctl(toks, i) <= toks.len(),
        forall|j: int| i <= j < find_ctl(toks, i) ==> !is_ctl(#[trigger] toks[j]),
        find_ctl(toks, i) < toks.len() ==> is_ctl(toks[find_ctl(toks, i)]),
    decreases toks.len() - i,
{
    if i < toks.len() && !is_ctl(toks[i]) {
        lemma_find_ctl(toks, i + 1);
    }
}

/// Index of the first pipe token in `[i, end)`, or `end`.
pub open spec fn find_pipe(toks: Seq<Seq<char>>, i: int, end: int) -> int
    decreases end - i,
{
    if i < 0 || i >= end {
        end
    } else if toks[i] == pipe_tok() {
        i
    } else {
        find_pipe(toks, i + 1, end)
    }
}

pub proof fn lemma_find_pipe(toks: Seq<Seq<char>>, i: int, end: int)
    requires
        0 <= i <= end,
    ensures
        i <= find_pipe(toks, i, end) <= end,
        forall|j: int| i <= j < find_pipe(toks, i, end) ==> #[trigger] toks[j] != pipe_tok(),
        find_pipe(toks, i, end) < end ==> toks[find_pipe(toks, i, end)] == pipe_tok(),
    decreases end - i,
{
    if i < end && toks[i] != pipe_tok() {
        lemma_find_pipe(toks, i + 1, end);
    }
}

/// The stages of the pipeline spanning `[i, end)` of the token list: the
/// argument lists between pipe tokens, each of which must be non-empty.
/// The error carries the operator standing at an empty stage position;
/// for a trailing pipe that is the token right after the pipeline, or the
/// pipe itself at the end of the line.
pub open spec fn spec_stages(toks: Seq<Seq<char>>, i: int, end: int) -> Result<
    Seq<Seq<Seq<char>>>,
    Seq<char>,
>
    decreases end - i,
{
    if i < 0 || i >= end {
        Err(if 0 <= end < toks.len() {
            toks[end]
        } else {
            pipe_tok()
        })
    } else if toks[i] == pipe_tok() {
        Err(pipe_tok())
    } else {
        let p0 = find_pipe(toks, i, end);
        let p = if p0 < i {
            i
        } else {
            p0
        };
        if p >= end {
            Ok(seq![toks.subrange(i, end)])
        } else {
            match spec_stages(toks, p + 1, end) {
                Ok(rest) => Ok(seq![toks.subrange(i, p)] + rest),
                Err(e) => Err(e),
            }
        }
    }
}

/// Each stage as a `Command` leaf.
pub open spec fn stage_cmds(st: Seq<Seq<Seq<char>>>) -> Seq<SpecExpr> {
    st.map_values(|args: Seq<Seq<char>>| SpecExpr::Command(args))
}

/// The pipeline spanning `[i, end)`: one stage collapses to a bare
/// `Command`, two or more become a `Pipeline`.
pub open spec fn spec_parse_pipeline(toks: Seq<Seq<char>>, i: int, end: int) -> Result<
    SpecExpr,
    Seq<char>,
>
{
    match spec_stages(toks, i, end) {
        Ok(st) => Ok(
            if st.len() == 1 {
                SpecExpr::Command(st[0])
            } else {
                SpecExpr::Pipeline(stage_cmds(st))
            },
        ),
        Err(e) => Err(e),
    }
}

/// The children an expression contributes to an enclosing sequence: a
/// `Sequence` is spliced in flat, anything else is one child.
pub open spec fn seq_children(e: SpecExpr) -> Seq<SpecExpr> {
    match e {
        SpecExpr::Sequence(cs) => cs,
        _ => seq![e],
    }
}

/// Parsing the token list from position `i` to its end.
pub open spec fn spec_parse_at(toks: Seq<Seq<char>>, i: int) -> Result<SpecExpr, Seq<char>>
    decreases toks.len() - i,
{
    if i < 0 || i >= toks.len() {
        Err(Seq::empty())
    } else {
        let k0 = find_ctl(toks, i);
        let k = if k0 < i {
            i
        } else {
            k0
        };
        if k == i {
            Err(toks[i])
        } else if k >= toks.len() {
            spec_parse_pipeline(toks, i, toks.len() as int)
        } else if toks[k] == semi_tok() {
            if k + 1 >= toks.len() {
                Err(semi_tok())
            } else {
                match spec_parse_pipeline(toks, i, k) {
                    Err(e) => Err(e),
                    Ok(first) => match spec_parse_at(toks, k + 1) {
                        Err(e) => Err(e),
                        Ok(rest) => Ok(SpecExpr::Sequence(seq![first] + seq_children(rest))),
                    },
                }
            }
        } else {
            if k + 1 >= toks.len() {
                Err(toks[k])
            } else {
                match spec_parse_pipeline(toks, i, k) {
                    Err(e) => Err(e),
                    Ok(lhs) => match spec_parse_at(toks, k + 1) {
                        Err(e) => Err(e),
                        Ok(rhs) => Ok(
                            if toks[k] == and_tok() {
                                SpecExpr::And(Box::new(lhs), Box::new(rhs))
                            } else {
                                SpecExpr::Or(Box::new(lhs), Box::new(rhs))
                            },
                        ),
                    },
                }
            }
        }
    }
}

/// What parsing a whole token list yields.
pub open spec fn spec_parse(toks: Seq<Seq<char>>) -> Result<SpecExpr, Seq<char>> {
    spec_parse_at(toks, 0)
}

fn is_semi_token(t: &String) -> (b: bool)
    ensures
        b == (t@ == semi_tok()),
{
    let semi = String::from_str(";");
    proof {
        reveal_strlit(";");
        assert(semi@ =~= semi_tok());
    }
    *t == semi
}

fn is_and_token(t: &String) -> (b: bool)
    ensures
        b == (t@ == and_tok()),
{
    let andt = String::from_str("&&");
    proof {
        reveal_strlit("&&");
        assert(andt@ =~= and_tok());
    }
    *t == andt
}

fn is_or_token(t: &String) -> (b: bool)
    ensures
        b == (t@ == or_tok()),
{
    let ort = String::from_str("||");
    proof {
        reveal_strlit("||");
        assert(ort@ =~= or_tok());
    }
    *t == ort
}

fn is_pipe_token(t: &String) -> (b: bool)
    ensures
        b == (t@ == pipe_tok()),
{
    let pipe = String::from_str("|");
    proof {
        reveal_strlit("|");
        assert(pipe@ =~= pipe_tok());
    }
    *t == pipe
}

fn is_ctl_token(t: &String) -> (b: bool)
    ensures
        b == is_ctl(t@),
{
    let semi = is_semi_token(t);
    let andt = is_and_token(t);
    let ort = is_or_token(t);
    semi || andt || ort
}

fn find_ctl_idx(toks: &Vec<String>, i: usize) -> (k: usize)
    requires
        i <= toks.len(),
    ensures
        k as int == find_ctl(toks.deep_view(), i as int),
        i <= k <= toks.len(),
{
    let mut j = i;
    while j < toks.len()
        invariant
            i <= j <= toks.len(),
            find_ctl(toks.deep_view(), i as int) == find_ctl(toks.deep_view(), j as int),
        decreases toks.len() - j,
    {
        if is_ctl_token(&toks[j]) {
            proof {
                lemma_find_ctl(toks.deep_view(), i as int);
            }
            return j;
        }
        j = j + 1;
    }
    proof {
        lemma_find_ctl(toks.deep_view(), i as int);
    }
    j
}

fn find_pipe_idx(toks: &Vec<String>, i: usize, end: usize) -> (p: usize)
    requires
        i <= end <= toks.len(),
    ensures
        p as int == find_pipe(toks.deep_view(), i as int, end as int),
        i <= p <= end,
{
    let mut j = i;
    while j < end
        invariant
            i <= j <= end <= toks.len(),
            find_pipe(toks.deep_view(), i as int, end as int) == find_pipe(
                toks.deep_view(),
                j as int,
                end as int,
            ),
        decreases end - j,
    {
        if is_pipe_token(&toks[j]) {
            proof {
                lemma_find_pipe(toks.deep_view(), i as int, end as int);
            }
            return j;
        }
        j = j + 1;
    }
    proof {
        lemma_find_pipe(toks.deep_view(), i as int, end as int);
    }
    j
}

/// Collects the stages of the pipeline spanning `[j, end)`, exactly as
/// `spec_stages` describes them.
fn parse_stages(toks: &Vec<String>, j: usize, end: usize) -> (r: Result<
    Vec<Vec<String>>,
    ParseError,
>)
    requires
        j <= end <= toks.len(),
    ensures
        match r {
            Ok(st) => spec_stages(toks.deep_view(), j as int, end as int) == Ok::<Seq<Seq<Seq<char>>>, Seq<char>>(st.deep_view()),
            Err(pe) => pe matches ParseError::UnexpectedOperator(op) && spec_stages(
                toks.deep_view(),
                j as int,
                end as int,
            ) == Err::<Seq<Seq<Seq<char>>>, Seq<char>>(op@),
        },
    decreases end - j,
{
    let ghost tv = toks.deep_view();
    if j >= end {
        let payload = if end < toks.len() {
            toks[end].clone()
        } else {
            let pipe = String::from_str("|");
            proof {
                reveal_strlit("|");
                assert(pipe@ =~= pipe_tok());
            }
            pipe
        };
        return Err(ParseError::UnexpectedOperator(payload));
    }
    if is_pipe_token(&toks[j]) {
        return Err(ParseError::UnexpectedOperator(toks[j].clone()));
    }
    let p = find_pipe_idx(toks, j, end);
    proof {
        lemma_find_pipe(tv, j as int, end as int);
    }
    let mut stage: Vec<String> = Vec::new();
    let mut m = j;
    while m < p
        invariant
            j <= m <= p <= end <= toks.len(),
            tv == toks.deep_view(),
            stage.deep_view() =~= tv.subrange(j as int, m as int),
        decreases p - m,
    {
        let ghost sv0 = stage.deep_view();
        let x = toks[m].clone();
        proof {
            assert(x.deep_view() == tv[m as int]);
        }
        stage.push(x);
        proof {
            assert(stage.deep_view() =~= sv0.push(tv[m as int]));
            assert(stage.deep_view() =~= tv.subrange(j as int, m + 1 as int));
        }
        m = m + 1;
    }
    if p >= end {
        let mut st: Vec<Vec<String>> = Vec::new();
        st.push(stage);
        proof {
            assert(st.deep_view() =~= seq![tv.subrange(j as int, end as int)]);
        }
        Ok(st)
    } else {
        match parse_stages(toks, p + 1, end) {
            Ok(mut rest) => {
                let ghost restv = rest.deep_view();
                rest.insert(0, stage);
                proof {
                    assert(rest.deep_view() =~= seq![tv.subrange(j as int, p as int)] + restv);
                }
                Ok(rest)
            },
            Err(e) => Err(e),
        }
    }
}

/// Parses the pipeline spanning `[i, end)`: stages separated by `|`, a
/// single stage collapsing to a bare `Command`.
fn parse_simple_expr(toks: &Vec<String>, i: usize, end: usize) -> (r: Result<
    CommandExpr,
    ParseError,
>)
    requires
        i <= end <= toks.len(),
    ensures
        match r {
            Ok(e) => spec_parse_pipeline(toks.deep_view(), i as int, end as int) == Ok::<SpecExpr, Seq<char>>(e@),
            Err(pe) => pe matches ParseError::UnexpectedOperator(op) && spec_parse_pipeline(
                toks.deep_view(),
                i as int,
                end as int,
            ) == Err::<SpecExpr, Seq<char>>(op@),
        },
{
    let ghost tv = toks.deep_view();
    let mut st = match parse_stages(toks, i, end) {
        Ok(st) => st,
        Err(e) => {
            return Err(e);
        },
    };
    let ghost stv = st.deep_view();
    if st.len() == 1 {
        let args = match st.pop() {
            Some(a) => a,
            None => {
                return Err(ParseError::UnexpectedOperator(String::new()));
            },
        };
        proof {
            assert(args.deep_view() == stv[0]);
        }
        Ok(CommandExpr::Command(args))
    } else {
        let mut cmds: Vec<CommandExpr> = Vec::new();
        proof {
            assert(view_expr_list(cmds@) =~= stage_cmds(stv.take(0)));
        }
        while st.len() > 0
            invariant
                cmds@.len() + st@.len() == stv.len(),
                st.deep_view() =~= stv.skip(cmds@.len() as int),
                view_expr_list(cmds@) == stage_cmds(stv.take(cmds@.len() as int)),
            decreases st@.len(),
        {
            let ghost c0 = cmds@.len() as int;
            let ghost before = st.deep_view();
            let ghost st0 = st@;
            let a = st.remove(0);
            proof {
                assert(a.deep_view() == stv.skip(c0)[0]);
                assert(a.deep_view() == stv[c0]);
                assert(st@ == st0.remove(0));
                assert forall|q: int| 0 <= q < st@.len() implies #[trigger] st@[q] == st0[q + 1] by {
                }
                assert(st.deep_view() =~= before.drop_first());
                assert(before.drop_first() =~= stv.skip(c0 + 1));
            }
            let cmd = CommandExpr::Command(a);
            proof {
                lemma_view_expr_list_push(cmds@, cmd);
            }
            cmds.push(cmd);
            proof {
                assert(view_expr_list(cmds@) =~= stage_cmds(stv.take(c0 + 1)));
            }
        }
        proof {
            assert(stv.take(cmds@.len() as int) =~= stv);
        }
        Ok(CommandExpr::Pipeline(cmds))
    }
}

/// Parses the whole token list from position `i`, exactly as
/// `spec_parse_at` describes.
fn parse_expr_at(toks: &Vec<String>, i: usize) -> (r: Result<CommandExpr, ParseError>)
    requires
        i <= toks.len(),
    ensures
        match r {
            Ok(e) => spec_parse_at(toks.deep_view(), i as int) == Ok::<SpecExpr, Seq<char>>(e@),
            Err(pe) => pe matches ParseError::UnexpectedOperator(op) && spec_parse_at(
                toks.deep_view(),
                i as int,
            ) == Err::<SpecExpr, Seq<char>>(op@),
        },
    decreases toks.len() - i,
{
    let ghost tv = toks.deep_view();
    if i >= toks.len() {
        return Err(ParseError::UnexpectedOperator(String::new()));
    }
    let k = find_ctl_idx(toks, i);
    proof {
        lemma_find_ctl(tv, i as int);
    }
    if k == i {
        return Err(ParseError::UnexpectedOperator(toks[i].clone()));
    }
    if k >= toks.len() {
        return parse_simple_expr(toks, i, toks.len());
    }
    if is_semi_token(&toks[k]) {
        if k + 1 >= toks.len() {
            return Err(ParseError::UnexpectedOperator(toks[k].clone()));
        }
        let first = match parse_simple_expr(toks, i, k) {
            Ok(e) => e,
            Err(pe) => {
                return Err(pe);
            },
        };
        let rest = match parse_expr_at(toks, k + 1) {
            Ok(e) => e,
            Err(pe) => {
                return Err(pe);
            },
        };
        match rest {
            CommandExpr::Sequence(mut cs) => {
                let ghost cs0 = cs@;
                cs.insert(0, first);
                proof {
                    lemma_view_expr_list(cs0);
                    lemma_view_expr_list(cs@);
                    assert(view_expr_list(cs@) =~= seq![first@] + view_expr_list(cs0));
                }
                Ok(CommandExpr::Sequence(cs))
            },
            other => {
                let ghost otherv = other@;
                let mut cs: Vec<CommandExpr> = Vec::new();
                cs.push(first);
                cs.push(other);
                proof {
                    lemma_view_expr_list(cs@);
                    assert(view_expr_list(cs@) =~= seq![first@] + seq_children(otherv));
                }
                Ok(CommandExpr::Sequence(cs))
            },
        }
    } else {
        if k + 1 >= toks.len() {
            return Err(ParseError::UnexpectedOperator(toks[k].clone()));
        }
        let lhs = match parse_simple_expr(toks, i, k) {
            Ok(e) => e,
            Err(pe) => {
                return Err(pe);
            },
        };
        let rhs = match parse_expr_at(toks, k + 1) {
            Ok(e) => e,
            Err(pe) => {
                return Err(pe);
            },
        };
        if is_and_token(&toks[k]) {
            Ok(CommandExpr::And(Box::new(lhs), Box::new(rhs)))
        } else {
            Ok(CommandExpr::Or(Box::new(lhs), Box::new(rhs)))
        }
    }
}

/// Every stage that `spec_stages` yields is a non-empty argument list.
proof fn lemma_stages_nonempty(toks: Seq<Seq<char>>, i: int, end: int)
    requires
        end <= toks.len(),
    ensures
        spec_stages(toks, i, end) matches Ok(st) ==> forall|q: int|
            0 <= q < st.len() ==> #[trigger] st[q].len() >= 1,
    decreases end - i,
{
    if 0 <= i < end && toks[i] != pipe_tok() {
        let p0 = find_pipe(toks, i, end);
        let p = if p0 < i {
            i
        } else {
            p0
        };
        lemma_find_pipe(toks, i, end);
        if p < end {
            lemma_stages_nonempty(toks, p + 1, end);
        }
    }
}

/// A list whose members are all well-formed is well-formed.
proof fn lemma_wf_expr_list_all(es: Seq<SpecExpr>)
    requires
        forall|q: int| 0 <= q < es.len() ==> wf_expr(#[trigger] es[q]),
    ensures
        wf_expr_list(es),
    decreases es.len(),
{
    if es.len() > 0 {
        lemma_wf_expr_list_all(es.drop_first());
    }
}

/// Whatever the pipeline parser accepts is well-formed.
proof fn lemma_parse_pipeline_wf(toks: Seq<Seq<char>>, i: int, end: int)
    requires
        end <= toks.len(),
    ensures
        spec_parse_pipeline(toks, i, end) matches Ok(e) ==> wf_expr(e),
{
    lemma_stages_nonempty(toks, i, end);
    if spec_parse_pipeline(toks, i, end) is Ok {
        let st = spec_stages(toks, i, end)->Ok_0;
        if st.len() != 1 {
            assert(forall|q: int|
                0 <= q < stage_cmds(st).len() ==> wf_expr(#[trigger] stage_cmds(st)[q]));
            lemma_wf_expr_list_all(stage_cmds(st));
        }
    }
}

/// Whatever the parser accepts is well-formed.
pub proof fn lemma_parse_at_wf(toks: Seq<Seq<char>>, i: int)
    ensures
        spec_parse_at(toks, i) matches Ok(e) ==> wf_expr(e),
    decreases toks.len() - i,
{
    if 0 <= i < toks.len() {
        let k0 = find_ctl(toks, i);
        let k = if k0 < i {
            i
        } else {
            k0
        };
        if k != i {
            if k >= toks.len() {
                lemma_parse_pipeline_wf(toks, i, toks.len() as int);
            } else {
                lemma_parse_pipeline_wf(toks, i, k);
                lemma_parse_at_wf(toks, k + 1);
                if toks[k] == semi_tok() && k + 1 < toks.len() {
                    if spec_parse_pipeline(toks, i, k) is Ok && spec_parse_at(toks, k + 1) is Ok {
                        let first = spec_parse_pipeline(toks, i, k)->Ok_0;
                        let rest = spec_parse_at(toks, k + 1)->Ok_0;
                        lemma_wf_children(rest);
                        assert forall|q: int|
                            0 <= q < (seq![first] + seq_children(rest)).len() implies wf_expr(
                            #[trigger] (seq![first] + seq_children(rest))[q],
                        ) by {
                            if q > 0 {
                                assert((seq![first] + seq_children(rest))[q] == seq_children(
                                    rest,
                                )[q - 1]);
                            }
                        }
                        lemma_wf_expr_list_all(seq![first] + seq_children(rest));
                    }
                }
            }
        }
    }
}

/// The children a well-formed expression contributes to a sequence are
/// themselves well-formed.
proof fn lemma_wf_children(e: SpecExpr)
    requires
        wf_expr(e),
    ensures
        forall|q: int| 0 <= q < seq_children(e).len() ==> wf_expr(#[trigger] seq_children(e)[q]),
{
    match e {
        SpecExpr::Sequence(cs) => {
            lemma_wf_expr_list_index_all(cs);
        },
        _ => {},
    }
}

/// Every member of a well-formed list is well-formed.
proof fn lemma_wf_expr_list_index_all(es: Seq<SpecExpr>)
    requires
        wf_expr_list(es),
    ensures
        forall|q: int| 0 <= q < es.len() ==> wf_expr(#[trigger] es[q]),
    decreases es.len(),
{
    if es.len() > 0 {
        lemma_wf_expr_list_index_all(es.drop_first());
        assert forall|q: int| 0 <= q < es.len() implies wf_expr(#[trigger] es[q]) by {
            if q > 0 {
                assert(es[q] == es.drop_first()[q - 1]);
            }
        }
    }
}

/// Parses one token list into an expression tree. The tokens are consumed:
/// the vector is empty afterwards, whatever the outcome.
pub fn parse_expr(tokens: &mut Vec<String>) -> (r: Result<CommandExpr, ParseError>)
    ensures
        final(tokens)@.len() == 0,
        match r {
            Ok(e) => spec_parse(old(tokens).deep_view()) == Ok::<SpecExpr, Seq<char>>(e@) && wf_expr(e@),
            Err(pe) => pe matches ParseError::UnexpectedOperator(op) && spec_parse(
                old(tokens).deep_view(),
            ) == Err::<SpecExpr, Seq<char>>(op@),
        },
{
    let r = parse_expr_at(tokens, 0);
    proof {
        lemma_parse_at_wf(tokens.deep_view(), 0);
    }
    tokens.clear();
    r
}

/// Parsing a line with no operator tokens yields exactly one `Command`
/// holding those tokens, in order.
pub proof fn lemma_parse_single_command(toks: Seq<Seq<char>>)
    requires
        toks.len() >= 1,
        forall|j: int| 0 <= j < toks.len() ==> !is_op(#[trigger] toks[j]),
    ensures
        spec_parse(toks) == Ok::<SpecExpr, Seq<char>>(SpecExpr::Command(toks)),
{
    lemma_find_ctl(toks, 0);
    let k = find_ctl(toks, 0);
    assert(k == toks.len());
    lemma_find_pipe(toks, 0, toks.len() as int);
    let p = find_pipe(toks, 0, toks.len() as int);
    assert(p == toks.len());
    assert(toks.subrange(0, toks.len() as int) =~= toks);
}

/// Tokenizes and parses one input line. `Ok(None)` means the line held
/// no tokens, so there is nothing to evaluate.
pub fn parse_line(input: &str) -> (r: Result<Option<CommandExpr>, ParseError>)
    ensures
        match r {
            Ok(Some(e)) => spec_tokenize(input@) matches Some(toks) && toks.len() > 0
                && spec_parse(toks) == Ok::<SpecExpr, Seq<char>>(e@) && wf_expr(e@),
            Ok(None) => spec_tokenize(input@) matches Some(toks) && toks.len() == 0,
            Err(pe) => match pe {
                ParseError::UnterminatedQuote => spec_tokenize(input@) is None,
                ParseError::UnexpectedOperator(op) => spec_tokenize(input@) matches Some(toks)
                    && spec_parse(toks) == Err::<SpecExpr, Seq<char>>(op@),
            },
        },
{
    let mut tokens = match tokenize(input) {
        Ok(t) => t,
        Err(e) => {
            return Err(e);
        },
    };
    if tokens.len() == 0 {
        return Ok(None);
    }
    match parse_expr(&mut tokens) {
        Ok(e) => Ok(Some(e)),
        Err(pe) => Err(pe),
    }
}

} // verus!

