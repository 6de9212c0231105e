//! The alias table and alias expansion.

use crate::command::{wf_expr, CommandExpr, SpecExpr};
use crate::parser::{lemma_parse_at_wf, parse_expr, spec_parse};
use crate::tokenizer::{spec_tokenize, tokenize};
use vstd::prelude::*;
use vstd::string::*;

verus! {

/// A read-only mapping from alias names to replacement text, supplied by
/// the configuration collaborator before each evaluation. The latest
/// entry for a name wins, as in a map.
pub struct AliasTable {
    entries: Vec<(String, String)>,
}

pub open spec fn entries_map(s: Seq<(String, String)>) -> Map<Seq<char>, Seq<char>>
    decreases s.len(),
{
    if s.len() == 0 {
        Map::empty()
    } else {
        entries_map(s.drop_last()).insert(s.last().0@, s.last().1@)
    }
}

impl View for AliasTable {
    type V = Map<Seq<char>, Seq<char>>;

    closed spec fn view(&self) -> Map<Seq<char>, Seq<char>> {
        entries_map(self.entries@)
    }
}

/// Entries at or after position `i` that never mention `key` leave the
/// table's view at `key` untouched.
proof fn lemma_entries_map_unchanged(s: Seq<(String, String)>, key: Seq<char>, i: int)
    requires
        0 <= i <= s.len(),
        forall|j: int| i <= j < s.len() ==> (#[trigger] s[j]).0@ != key,
    ensures
        entries_map(s).contains_key(key) <==> entries_map(s.take(i)).contains_key(key),
        entries_map(s).contains_key(key) ==> entries_map(s)[key] == entries_map(s.take(i))[key],
    decreases s.len() - i,
{
    if i < s.len() {
        lemma_entries_map_unchanged(s.drop_last(), key, i);
        assert(s.drop_last().take(i) =~= s.take(i));
    } else {
        assert(s.take(i) =~= s);
    }
}

impl AliasTable {
    /// An empty table.
    pub fn new() -> (t: AliasTable)
        ensures
            t@ == Map::<Seq<char>, Seq<char>>::empty(),
    {
        AliasTable { entries: Vec::new() }
    }

    /// Defines an alias, replacing any earlier entry for the same name.
    pub fn set(&mut self, name: String, text: String)
        ensures
            final(self)@ == old(self)@.insert(name@, text@),
    {
        let ghost name_v = name@;
        let ghost text_v = text@;
        let ghost before = self.entries@;
        self.entries.push((name, text));
        proof {
            assert(self.entries@.drop_last() =~= before);
            assert(self.entries@.last().0@ == name_v);
            assert(self.entries@.last().1@ == text_v);
        }
    }

    /// Looks a name up; the latest entry for it wins.
    pub fn get(&self, name: &str) -> (r: Option<&String>)
        ensures
            match r {
                Some(text) => self@.contains_key(name@) && self@[name@] == text@,
                None => !self@.contains_key(name@),
            },
    {
        let key: String = name.to_owned();
        let ghost s = self.entries@;
        let n = self.entries.len();
        let mut idx = n;
        while idx > 0
            invariant
                idx <= n,
                n == self.entries@.len(),
                s == self.entries@,
                key@ == name@,
                forall|j: int| idx <= j < n ==> (#[trigger] s[j]).0@ != name@,
            decreases idx,
        {
            let entry = &self.entries[idx - 1];
            if entry.0 == key {
                proof {
                    lemma_entries_map_unchanged(s, name@, idx as int);
                    assert(s.take(idx as int).drop_last() =~= s.take(idx - 1));
                    assert(s.take(idx as int).last() == s[idx - 1]);
                }
                return Some(&entry.1);
            }
            idx = idx - 1;
        }
        proof {
            lemma_entries_map_unchanged(s, name@, 0);
            assert(s.take(0) =~= Seq::<(String, String)>::empty());
        }
        None
    }
}

/// What alias expansion turns a command's argument list into: either a
/// plain argument list, or a whole compound expression that replaces the
/// command.
pub enum Expanded {
    Plain(Vec<String>),
    Compound(CommandExpr),
}

/// The mathematical shape of an expansion outcome.
pub enum SpecExpanded {
    Plain(Seq<Seq<char>>),
    Compound(SpecExpr),
}

impl View for Expanded {
    type V = SpecExpanded;

    open spec fn view(&self) -> SpecExpanded {
        match self {
            Expanded::Plain(args) => SpecExpanded::Plain(args.deep_view()),
            Expanded::Compound(e) => SpecExpanded::Compound(e@),
        }
    }
}

/// Alias expansion applied to one command's arguments. If the first
/// argument names an alias, the replacement text is tokenized and parsed
/// afresh: a plain command splices its tokens in place of the name,
/// keeping the trailing arguments; a compound expression replaces the
/// whole command, discarding the trailing arguments. A name that is no
/// alias, or replacement text that does not tokenize or parse, leaves
/// the arguments unchanged.
pub open spec fn spec_expand(args: Seq<Seq<char>>, aliases: Map<Seq<char>, Seq<char>>) -> SpecExpanded {
    if args.len() == 0 || !aliases.contains_key(args[0]) {
        SpecExpanded::Plain(args)
    } else {
        let toks = match spec_tokenize(aliases[args[0]]) {
            Some(t) => t,
            None => Seq::empty(),
        };
        match spec_parse(toks) {
            Err(_) => SpecExpanded::Plain(args),
            Ok(SpecExpr::Command(ex)) => SpecExpanded::Plain(ex + args.drop_first()),
            Ok(other) => SpecExpanded::Compound(other),
        }
    }
}

/// A compound expansion is well-formed, and a plain one keeps at least
/// one argument.
pub proof fn lemma_expand_wf(args: Seq<Seq<char>>, aliases: Map<Seq<char>, Seq<char>>)
    requires
        args.len() >= 1,
    ensures
        spec_expand(args, aliases) matches SpecExpanded::Compound(e) ==> wf_expr(e),
        spec_expand(args, aliases) matches SpecExpanded::Plain(a2) ==> a2.len() >= 1,
{
    if aliases.contains_key(args[0]) {
        let toks = match spec_tokenize(aliases[args[0]]) {
            Some(t) => t,
            None => Seq::empty(),
        };
        lemma_parse_at_wf(toks, 0);
    }
}

/// Expands the leading alias of one argument list, exactly as
/// `spec_expand` describes.
pub fn expand_command(args: Vec<String>, aliases: &AliasTable) -> (r: Expanded)
    requires
        args@.len() >= 1,
    ensures
        r@ == spec_expand(args.deep_view(), aliases@),
{
    let ghost args_v = args.deep_view();
    let text: String = match aliases.get(args[0].as_str()) {
        Some(t) => t.clone(),
        None => {
            return Expanded::Plain(args);
        },
    };
    let mut toks = match tokenize(text.as_str()) {
        Ok(t) => t,
        Err(_) => Vec::new(),
    };
    proof {
        if spec_tokenize(text@) is None {
            assert(toks.deep_view() =~= Seq::<Seq<char>>::empty());
        }
    }
    match parse_expr(&mut toks) {
        Err(_) => Expanded::Plain(args),
        Ok(e) => match e {
            CommandExpr::Command(mut ex) => {
                let ghost ex_v = ex.deep_view();
                let mut m: usize = 1;
                while m < args.len()
                    invariant
                        1 <= m <= args@.len(),
                        args.deep_view() == args_v,
                        ex.deep_view() =~= ex_v + args_v.subrange(1, m as int),
                    decreases args@.len() - m,
                {
                    let ghost before = ex.deep_view();
                    let x = args[m].clone();
                    proof {
                        assert(x.deep_view() == args_v[m as int]);
                    }
                    ex.push(x);
                    proof {
                        assert(ex.deep_view() =~= before.push(args_v[m as int]));
                        assert(ex.deep_view() =~= ex_v + args_v.subrange(1, m + 1 as int));
                    }
                    m = m + 1;
                }
                proof {
                    assert(args_v.subrange(1, args_v.len() as int) =~= args_v.drop_first());
                    assert(ex.deep_view() =~= ex_v + args_v.drop_first());
                }
                Expanded::Plain(ex)
            },
            other => Expanded::Compound(other),
        },
    }
}

} // verus!
