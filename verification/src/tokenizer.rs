//! From one raw input line to its ordered sequence of tokens.
//!
//! Unquoted spaces separate tokens and runs of them collapse. A double or
//! a single quote character each independently toggles a literal state and
//! is itself dropped; while either state is active every character is
//! copied verbatim. Outside quotes, `;` always stands alone, and `&` or `|`
//! doubles up with an immediately following twin (`&&`, `||`) or stands
//! alone otherwise. A quote still open at the end of the line is an error.

use crate::parser::ParseError;
use vstd::prelude::*;
use vstd::string::*;

verus! {

/// A pending buffer becomes a token when it is non-empty.
pub open spec fn flush(acc: Seq<Seq<char>>, cur: Seq<char>) -> Seq<Seq<char>> {
    if cur.len() > 0 {
        acc.push(cur)
    } else {
        acc
    }
}

/// The tokenizer as a character-at-a-time state machine: position `i` in
/// the line `s`, the pending buffer `cur`, the two quote states, and the
/// tokens emitted so far. `None` means the line ended inside a quote.
pub open spec fn spec_tokenize_from(
    s: Seq<char>,
    i: int,
    cur: Seq<char>,
    dq: bool,
    sq: bool,
    acc: Seq<Seq<char>>,
) -> Option<Seq<Seq<char>>>
    decreases s.len() - i,
{
    if i < 0 || i >= s.len() {
        if dq || sq {
            None
        } else {
            Some(flush(acc, cur))
        }
    } else {
        let c = s[i];
        if c == '"' {
            spec_tokenize_from(s, i + 1, cur, !dq, sq, acc)
        } else if c == '\'' {
            spec_tokenize_from(s, i + 1, cur, dq, !sq, acc)
        } else if dq || sq {
            spec_tokenize_from(s, i + 1, cur.push(c), dq, sq, acc)
        } else if c == ' ' {
            spec_tokenize_from(s, i + 1, Seq::empty(), dq, sq, flush(acc, cur))
        } else if c == '&' || c == '|' {
            if i + 1 < s.len() && s[i + 1] == c {
                spec_tokenize_from(s, i + 2, Seq::empty(), dq, sq, flush(acc, cur).push(seq![c, c]))
            } else {
                spec_tokenize_from(s, i + 1, Seq::empty(), dq, sq, flush(acc, cur).push(seq![c]))
            }
        } else if c == ';' {
            spec_tokenize_from(s, i + 1, Seq::empty(), dq, sq, flush(acc, cur).push(seq![c]))
        } else {
            spec_tokenize_from(s, i + 1, cur.push(c), dq, sq, acc)
        }
    }
}

/// What tokenizing a whole line yields.
pub open spec fn spec_tokenize(s: Seq<char>) -> Option<Seq<Seq<char>>> {
    spec_tokenize_from(s, 0, Seq::empty(), false, false, Seq::empty())
}

/// Relies on `String::push`: appends the character to the end of the string.
#[verifier::external_body]
fn push_char(s: &mut String, c: char)
    ensures
        final(s)@ == old(s)@.push(c),
{
    s.push(c)
}

/// Splits one line into tokens, exactly as `spec_tokenize` describes.
pub fn tokenize(input: &str) -> (r: Result<Vec<String>, ParseError>)
    ensures
        match r {
            Ok(tokens) => spec_tokenize(input@) == Some(tokens.deep_view()),
            Err(e) => spec_tokenize(input@) is None && e is UnterminatedQuote,
        },
{
    let n = input.unicode_len();
    let mut tokens: Vec<String> = Vec::new();
    let mut current = String::new();
    let mut in_double_quotes = false;
    let mut in_single_quotes = false;
    let mut i: usize = 0;

    proof {
        assert(tokens.deep_view() =~= Seq::<Seq<char>>::empty());
    }
    while i < n
        invariant
            n == input@.len(),
            i <= n,
            spec_tokenize(input@) == spec_tokenize_from(
                input@,
                i as int,
                current@,
                in_double_quotes,
                in_single_quotes,
                tokens.deep_view(),
            ),
        decreases n - i,
    {
        let ghost acc0 = tokens.deep_view();
        let ghost cur0 = current@;
        let c = input.get_char(i);
        if c == '"' {
            in_double_quotes = !in_double_quotes;
            i = i + 1;
        } else if c == '\'' {
            in_single_quotes = !in_single_quotes;
            i = i + 1;
        } else if in_double_quotes || in_single_quotes {
            push_char(&mut current, c);
            i = i + 1;
        } else if c == ' ' {
            let ghost i0 = i as int;
            if !current.as_str().is_empty() {
                tokens.push(current);
                current = String::new();
            }
            proof {
                assert(tokens.deep_view() =~= flush(acc0, cur0));
                assert(input@[i0] == ' ');
                assert(spec_tokenize_from(input@, i0, cur0, false, false, acc0)
                    == spec_tokenize_from(input@, i0 + 1, Seq::<char>::empty(), false, false, flush(acc0, cur0)));
                assert(current@ == Seq::<char>::empty());
                assert(tokens.deep_view() == flush(acc0, cur0));
            }
            i = i + 1;
        } else if c == '&' || c == '|' {
            let ghost i0 = i as int;
            if !current.as_str().is_empty() {
                tokens.push(current);
                current = String::new();
            }
            proof {
                assert(tokens.deep_view() =~= flush(acc0, cur0));
            }
            let ghost acc1 = tokens.deep_view();
            let mut op = String::new();
            push_char(&mut op, c);
            if i + 1 < n && input.get_char(i + 1) == c {
                push_char(&mut op, c);
                proof {
                    assert(op@ =~= seq![c, c]);
                }
                tokens.push(op);
                proof {
                    assert(tokens.deep_view() =~= acc1.push(seq![c, c]));
                    assert(spec_tokenize_from(input@, i0, cur0, false, false, acc0)
                        == spec_tokenize_from(input@, i0 + 2, Seq::<char>::empty(), false, false,
                            flush(acc0, cur0).push(seq![c, c])));
                    assert(tokens.deep_view() == flush(acc0, cur0).push(seq![c, c]));
                    assert(current@ == Seq::<char>::empty());
                }
                i = i + 2;
            } else {
                proof {
                    assert(op@ =~= seq![c]);
                }
                tokens.push(op);
                proof {
                    assert(tokens.deep_view() =~= acc1.push(seq![c]));
                    assert(spec_tokenize_from(input@, i0, cur0, false, false, acc0)
                        == spec_tokenize_from(input@, i0 + 1, Seq::<char>::empty(), false, false,
                            flush(acc0, cur0).push(seq![c])));
                    assert(tokens.deep_view() == flush(acc0, cur0).push(seq![c]));
                    assert(current@ == Seq::<char>::empty());
                }
                i = i + 1;
            }
        } else if c == ';' {
            let ghost i0 = i as int;
            if !current.as_str().is_empty() {
                tokens.push(current);
                current = String::new();
            }
            proof {
                assert(tokens.deep_view() =~= flush(acc0, cur0));
            }
            let ghost acc1 = tokens.deep_view();
            let mut op = String::new();
            push_char(&mut op, c);
            proof {
                assert(op@ =~= seq![c]);
            }
            tokens.push(op);
            proof {
                assert(tokens.deep_view() =~= acc1.push(seq![c]));
                assert(spec_tokenize_from(input@, i0, cur0, false, false, acc0)
                    == spec_tokenize_from(input@, i0 + 1, Seq::<char>::empty(), false, false,
                        flush(acc0, cur0).push(seq![c])));
                assert(tokens.deep_view() == flush(acc0, cur0).push(seq![c]));
                assert(current@ == Seq::<char>::empty());
            }
            i = i + 1;
        } else {
            push_char(&mut current, c);
            i = i + 1;
        }
    }
    if in_double_quotes || in_single_quotes {
        return Err(ParseError::UnterminatedQuote);
    }
    let ghost acc_end = tokens.deep_view();
    let ghost cur_end = current@;
    if !current.as_str().is_empty() {
        tokens.push(current);
    }
    proof {
        assert(tokens.deep_view() =~= flush(acc_end, cur_end));
    }
    Ok(tokens)
}

} // verus!
