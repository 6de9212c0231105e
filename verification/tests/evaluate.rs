use std::cell::RefCell;

use ryn::alias::AliasTable;
use ryn::command::CommandExpr;
use ryn::eval::{eval_expr, pipeline_success, EvalResult};
use ryn::parser::parse_line;

const FUEL: u64 = 64;

fn toks(words: &[&str]) -> Vec<String> {
    words.iter().map(|w| w.to_string()).collect()
}

fn cmd(words: &[&str]) -> CommandExpr {
    CommandExpr::Command(toks(words))
}

/// Records every callback the evaluator makes; a command whose name
/// starts with `fail` reports a non-zero exit.
struct Recorder {
    runs: RefCell<Vec<Vec<String>>>,
    pipes: RefCell<Vec<Vec<Vec<String>>>>,
    cds: RefCell<Vec<Option<String>>>,
}

impl Recorder {
    fn new() -> Recorder {
        Recorder {
            runs: RefCell::new(Vec::new()),
            pipes: RefCell::new(Vec::new()),
            cds: RefCell::new(Vec::new()),
        }
    }
}

fn eval_with(rec: &Recorder, expr: &CommandExpr, aliases: &AliasTable) -> EvalResult {
    let run = |args: Vec<String>| -> bool {
        let ok = !args[0].starts_with("fail");
        rec.runs.borrow_mut().push(args);
        ok
    };
    let run_pipe = |stages: Vec<Vec<String>>| -> Vec<bool> {
        let outs: Vec<bool> = stages.iter().map(|s| !s[0].starts_with("fail")).collect();
        rec.pipes.borrow_mut().push(stages);
        outs
    };
    let chdir = |d: Option<String>| -> bool {
        rec.cds.borrow_mut().push(d);
        true
    };
    eval_expr(expr, aliases, FUEL, run, run_pipe, chdir)
}

fn ok_result() -> EvalResult {
    EvalResult { success: true, should_exit: false }
}

fn failed_result() -> EvalResult {
    EvalResult { success: false, should_exit: false }
}

#[test]
fn single_command_runs_once() {
    let rec = Recorder::new();
    let r = eval_with(&rec, &cmd(&["ls", "-la"]), &AliasTable::new());
    assert_eq!(r, ok_result());
    assert_eq!(*rec.runs.borrow(), vec![toks(&["ls", "-la"])]);
}

#[test]
fn single_command_failure_is_reported() {
    let rec = Recorder::new();
    let r = eval_with(&rec, &cmd(&["fail-now"]), &AliasTable::new());
    assert_eq!(r, failed_result());
}

#[test]
fn sequence_runs_both_and_ands_success() {
    let rec = Recorder::new();
    let e = CommandExpr::Sequence(vec![cmd(&["fail-a"]), cmd(&["b"])]);
    let r = eval_with(&rec, &e, &AliasTable::new());
    assert_eq!(r, failed_result());
    assert_eq!(*rec.runs.borrow(), vec![toks(&["fail-a"]), toks(&["b"])]);

    let rec = Recorder::new();
    let e = CommandExpr::Sequence(vec![cmd(&["a"]), cmd(&["b"])]);
    let r = eval_with(&rec, &e, &AliasTable::new());
    assert_eq!(r, ok_result());
    assert_eq!(rec.runs.borrow().len(), 2);
}

#[test]
fn and_short_circuits_on_failure() {
    let rec = Recorder::new();
    let e = CommandExpr::And(Box::new(cmd(&["fail-a"])), Box::new(cmd(&["b"])));
    let r = eval_with(&rec, &e, &AliasTable::new());
    assert_eq!(r, failed_result());
    assert_eq!(*rec.runs.borrow(), vec![toks(&["fail-a"])]);
}

#[test]
fn and_takes_right_result_on_success() {
    let rec = Recorder::new();
    let e = CommandExpr::And(Box::new(cmd(&["a"])), Box::new(cmd(&["fail-b"])));
    let r = eval_with(&rec, &e, &AliasTable::new());
    assert_eq!(r, failed_result());
    assert_eq!(*rec.runs.borrow(), vec![toks(&["a"]), toks(&["fail-b"])]);
}

#[test]
fn or_short_circuits_on_success() {
    let rec = Recorder::new();
    let e = CommandExpr::Or(Box::new(cmd(&["a"])), Box::new(cmd(&["b"])));
    let r = eval_with(&rec, &e, &AliasTable::new());
    assert_eq!(r, ok_result());
    assert_eq!(*rec.runs.borrow(), vec![toks(&["a"])]);
}

#[test]
fn or_runs_right_on_failure() {
    let rec = Recorder::new();
    let e = CommandExpr::Or(Box::new(cmd(&["fail-a"])), Box::new(cmd(&["b"])));
    let r = eval_with(&rec, &e, &AliasTable::new());
    assert_eq!(r, ok_result());
    assert_eq!(*rec.runs.borrow(), vec![toks(&["fail-a"]), toks(&["b"])]);
}

#[test]
fn exit_on_the_left_of_and_still_runs_right() {
    // Short-circuiting matches on the exact failure-without-exit outcome,
    // so an `exit` on the left falls through to the right operand.
    let rec = Recorder::new();
    let e = CommandExpr::And(Box::new(cmd(&["exit"])), Box::new(cmd(&["b"])));
    let r = eval_with(&rec, &e, &AliasTable::new());
    assert_eq!(r, ok_result());
    assert_eq!(*rec.runs.borrow(), vec![toks(&["b"])]);
}

#[test]
fn exit_on_the_left_of_or_still_runs_right() {
    let rec = Recorder::new();
    let e = CommandExpr::Or(Box::new(cmd(&["exit"])), Box::new(cmd(&["b"])));
    let r = eval_with(&rec, &e, &AliasTable::new());
    assert_eq!(r, ok_result());
    assert_eq!(*rec.runs.borrow(), vec![toks(&["b"])]);
}

#[test]
fn pipeline_hands_all_stages_over_at_once() {
    let rec = Recorder::new();
    let e = CommandExpr::Pipeline(vec![cmd(&["a", "x"]), cmd(&["b"]), cmd(&["c"])]);
    let r = eval_with(&rec, &e, &AliasTable::new());
    assert_eq!(r, ok_result());
    assert_eq!(
        *rec.pipes.borrow(),
        vec![vec![toks(&["a", "x"]), toks(&["b"]), toks(&["c"])]]
    );
    assert!(rec.runs.borrow().is_empty());
}

#[test]
fn pipeline_fails_if_any_stage_fails() {
    let rec = Recorder::new();
    let e = CommandExpr::Pipeline(vec![cmd(&["a"]), cmd(&["fail-b"]), cmd(&["c"])]);
    let r = eval_with(&rec, &e, &AliasTable::new());
    assert_eq!(r, failed_result());
}

#[test]
fn pipeline_success_requires_every_stage() {
    assert!(pipeline_success(&vec![true, true], 2));
    assert!(!pipeline_success(&vec![true, false], 2));
    assert!(!pipeline_success(&vec![true], 2));
    assert!(pipeline_success(&Vec::new(), 0));
}

#[test]
fn exit_alone_asks_to_exit() {
    let rec = Recorder::new();
    let r = eval_with(&rec, &cmd(&["exit"]), &AliasTable::new());
    assert_eq!(r, EvalResult { success: true, should_exit: true });
    assert!(rec.runs.borrow().is_empty());
    assert!(rec.pipes.borrow().is_empty());
}

#[test]
fn exit_in_a_sequence_skips_later_siblings() {
    let rec = Recorder::new();
    let e = CommandExpr::Sequence(vec![cmd(&["a"]), cmd(&["exit"]), cmd(&["b"])]);
    let r = eval_with(&rec, &e, &AliasTable::new());
    assert_eq!(r, EvalResult { success: true, should_exit: true });
    assert_eq!(*rec.runs.borrow(), vec![toks(&["a"])]);
}

#[test]
fn cd_changes_directory_without_failing() {
    let rec = Recorder::new();
    let r = eval_with(&rec, &cmd(&["cd", "/tmp"]), &AliasTable::new());
    assert_eq!(r, ok_result());
    assert_eq!(*rec.cds.borrow(), vec![Some("/tmp".to_string())]);

    let rec = Recorder::new();
    let r = eval_with(&rec, &cmd(&["cd"]), &AliasTable::new());
    assert_eq!(r, ok_result());
    assert_eq!(*rec.cds.borrow(), vec![None]);
}

#[test]
fn alias_splices_and_keeps_trailing_arguments() {
    let mut aliases = AliasTable::new();
    aliases.set("ll".to_string(), "ls -la".to_string());
    let rec = Recorder::new();
    let r = eval_with(&rec, &cmd(&["ll", "/tmp"]), &aliases);
    assert_eq!(r, ok_result());
    assert_eq!(*rec.runs.borrow(), vec![toks(&["ls", "-la", "/tmp"])]);
}

#[test]
fn alias_to_builtin_is_dispatched() {
    let mut aliases = AliasTable::new();
    aliases.set("bye".to_string(), "exit".to_string());
    let rec = Recorder::new();
    let r = eval_with(&rec, &cmd(&["bye"]), &aliases);
    assert_eq!(r, EvalResult { success: true, should_exit: true });
    assert!(rec.runs.borrow().is_empty());
}

#[test]
fn compound_alias_discards_trailing_arguments() {
    let mut aliases = AliasTable::new();
    aliases.set("x".to_string(), "a ; b".to_string());
    let rec = Recorder::new();
    let r = eval_with(&rec, &cmd(&["x", "ignored"]), &aliases);
    assert_eq!(r, ok_result());
    assert_eq!(*rec.runs.borrow(), vec![toks(&["a"]), toks(&["b"])]);
}

#[test]
fn alias_expands_inside_pipeline_stages() {
    let mut aliases = AliasTable::new();
    aliases.set("g".to_string(), "grep -i".to_string());
    let rec = Recorder::new();
    let e = CommandExpr::Pipeline(vec![cmd(&["g", "foo"]), cmd(&["wc"])]);
    let r = eval_with(&rec, &e, &aliases);
    assert_eq!(r, ok_result());
    assert_eq!(
        *rec.pipes.borrow(),
        vec![vec![toks(&["grep", "-i", "foo"]), toks(&["wc"])]]
    );
}

#[test]
fn compound_alias_in_a_pipeline_replaces_it() {
    let mut aliases = AliasTable::new();
    aliases.set("x".to_string(), "a && b".to_string());
    let rec = Recorder::new();
    let e = CommandExpr::Pipeline(vec![cmd(&["x"]), cmd(&["wc"])]);
    let r = eval_with(&rec, &e, &aliases);
    assert_eq!(r, ok_result());
    assert!(rec.pipes.borrow().is_empty());
    assert_eq!(*rec.runs.borrow(), vec![toks(&["a"]), toks(&["b"])]);
}

#[test]
fn self_referential_compound_alias_runs_out_of_fuel() {
    let mut aliases = AliasTable::new();
    aliases.set("a".to_string(), "a | a".to_string());
    let rec = Recorder::new();
    let r = eval_with(&rec, &cmd(&["a"]), &aliases);
    assert_eq!(r, failed_result());
    assert!(rec.runs.borrow().is_empty());
    assert!(rec.pipes.borrow().is_empty());
}

#[test]
fn alias_table_latest_entry_wins() {
    let mut aliases = AliasTable::new();
    assert!(aliases.get("ll").is_none());
    aliases.set("ll".to_string(), "ls -l".to_string());
    aliases.set("ll".to_string(), "ls -la".to_string());
    assert_eq!(aliases.get("ll").unwrap(), "ls -la");
    assert!(aliases.get("l").is_none());
}

#[test]
fn parsed_line_evaluates_end_to_end() {
    let e = parse_line("fail-a && b ; c").unwrap().unwrap();
    let rec = Recorder::new();
    let r = eval_with(&rec, &e, &AliasTable::new());
    // `fail-a && (b ; c)`: the failure short-circuits the whole rest.
    assert_eq!(r, failed_result());
    assert_eq!(*rec.runs.borrow(), vec![toks(&["fail-a"])]);
}

#[test]
fn alias_with_unterminated_quote_is_ignored() {
    let mut aliases = AliasTable::new();
    aliases.set("bad".to_string(), "ls'".to_string());
    let rec = Recorder::new();
    let r = eval_with(&rec, &cmd(&["bad", "x"]), &aliases);
    assert_eq!(r, ok_result());
    assert_eq!(*rec.runs.borrow(), vec![toks(&["bad", "x"])]);
}

#[test]
fn alias_that_does_not_parse_is_ignored() {
    let mut aliases = AliasTable::new();
    aliases.set("bad".to_string(), "ls &&".to_string());
    let rec = Recorder::new();
    let r = eval_with(&rec, &cmd(&["bad"]), &aliases);
    assert_eq!(r, ok_result());
    assert_eq!(*rec.runs.borrow(), vec![toks(&["bad"])]);
}
