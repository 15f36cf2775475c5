//! Commands read from a command file: `ADD <record>`, `REM <condition>`
//! (or `REMOVE`), and `SAVE <file name>`, one per line.
use vstd::prelude::*;
use crate::text::{push_str, push_chars, chars_of, string_of, string_chars, copy_range, trim, trim_chars, lines, split_lines, views, is_literal, uppercase, uppercase_of};
use crate::condition::{Condition, condition_spec};
use crate::storage::error_views;

verus! {

/// A command of a command file.
#[derive(Debug, Clone, PartialEq)]
pub enum Command {
    /// Add the record written after the keyword.
    Add(String),
    /// Remove the records for which the condition written after the keyword holds.
    Remove(String),
    /// Save the records to the file named after the keyword.
    Save(String),
}

/// The kind of a command.
#[derive(Debug, Clone, Copy, PartialEq, Eq, Structural)]
pub enum CommandKind {
    Add,
    Remove,
    Save,
}

/// The contents of a command: its kind and its argument text.
pub type CommandView = (CommandKind, Seq<char>);

/// The contents of `c`.
pub open spec fn command_view(c: Command) -> CommandView {
    match c {
        Command::Add(s) => (CommandKind::Add, s@),
        Command::Remove(s) => (CommandKind::Remove, s@),
        Command::Save(s) => (CommandKind::Save, s@),
    }
}

/// The contents of each command, in order.
pub open spec fn command_views(cs: Seq<Command>) -> Seq<CommandView> {
    cs.map_values(|c: Command| command_view(c))
}

/// The text of `s` before its first `sep` (all of `s` when there is none),
/// the first piece that `splitn(2, sep)` yields.
pub open spec fn before_sep(s: Seq<char>, sep: char) -> Seq<char>
    decreases s.len(),
{
    if s.len() == 0 {
        s
    } else if s[0] == sep {
        Seq::empty()
    } else {
        seq![s[0]] + before_sep(s.drop_first(), sep)
    }
}

/// The text of `s` after its first `sep`, if there is one: the second piece
/// that `splitn(2, sep)` yields.
pub open spec fn after_sep(s: Seq<char>, sep: char) -> Option<Seq<char>>
    decreases s.len(),
{
    if s.len() == 0 {
        None
    } else if s[0] == sep {
        Some(s.drop_first())
    } else {
        after_sep(s.drop_first(), sep)
    }
}

/// The command on one line, or the error for it: the word before the
/// first space, in upper case, is the keyword; the rest of the line,
/// trimmed, is the argument, which must not be empty; a `REM` argument must
/// read as a condition.
pub open spec fn single_command_spec(line: Seq<char>) -> Result<CommandView, Seq<char>> {
    let head = before_sep(line, ' ');
    let kind = uppercase(head);
    let args = match after_sep(line, ' ') {
        Some(r) => trim(r),
        None => Seq::empty(),
    };
    if kind == "ADD"@ {
        if args.len() == 0 {
            Err("ADD requires CSV data"@)
        } else {
            Ok((CommandKind::Add, args))
        }
    } else if kind == "REM"@ || kind == "REMOVE"@ {
        if args.len() == 0 {
            Err("REM requires condition"@)
        } else {
            match condition_spec(args) {
                Err(m) => Err(m),
                Ok(_) => Ok((CommandKind::Remove, args)),
            }
        }
    } else if kind == "SAVE"@ {
        if args.len() == 0 {
            Err("SAVE requires filename"@)
        } else {
            Ok((CommandKind::Save, args))
        }
    } else {
        Err("Unknown command '"@ + head + "'"@)
    }
}

/// A line that holds no command: blank, or a `#` comment once trimmed.
pub open spec fn skipped_line(t: Seq<char>) -> bool {
    t.len() == 0 || t[0] == '#'
}

/// The commands of the given lines: each line is trimmed; blank lines and
/// comments are skipped, and so are lines that do not read as a command.
pub open spec fn commands_of_lines(ls: Seq<Seq<char>>) -> Seq<CommandView>
    decreases ls.len(),
{
    if ls.len() == 0 {
        Seq::empty()
    } else {
        let rest = commands_of_lines(ls.drop_last());
        let t = trim(ls.last());
        if skipped_line(t) {
            rest
        } else {
            match single_command_spec(t) {
                Ok(c) => rest.push(c),
                Err(_) => rest,
            }
        }
    }
}

/// The lines that hold something other than a command, each with its
/// number (counting every line from 1) and the error message; blank lines
/// and comments are not among them.
pub open spec fn command_errors(ls: Seq<Seq<char>>) -> Seq<(int, Seq<char>)>
    decreases ls.len(),
{
    if ls.len() == 0 {
        Seq::empty()
    } else {
        let rest = command_errors(ls.drop_last());
        let t = trim(ls.last());
        if skipped_line(t) {
            rest
        } else {
            match single_command_spec(t) {
                Ok(_) => rest,
                Err(m) => rest.push((ls.len() as int, m)),
            }
        }
    }
}

/// Reads commands.
pub struct CommandParser;

impl CommandParser {
    /// A parser.
    pub fn new() -> (p: Self) {
        CommandParser
    }

    /// Reads the commands of `content`, one per line, in order; blank
    /// lines, `#` comments and lines that do not read as a command are
    /// skipped.
    pub fn parse_content(&self, content: &str) -> (cmds: Vec<Command>)
        ensures
            command_views(cmds@) == commands_of_lines(lines(content@)),
    {
        let (commands, _errors) = self.parse_content_with_errors(content);
        commands
    }

    /// Reads the commands of `content` as `parse_content` does, and gives
    /// beside them, in order, each line that held something other than a
    /// command: its number (counting every line from 1) and the error
    /// message.
    pub fn parse_content_with_errors(&self, content: &str) -> (r: (Vec<Command>, Vec<(usize, String)>))
        ensures
            command_views(r.0@) == commands_of_lines(lines(content@)),
            error_views(r.1@) == command_errors(lines(content@)),
    {
        let mut commands: Vec<Command> = Vec::new();
        let mut errors: Vec<(usize, String)> = Vec::new();
        let cs = chars_of(content);
        let ls = split_lines(cs.as_slice());
        let ghost lv = views(ls@);
        let n = ls.len();
        let mut k: usize = 0;
        assert(lv.take(0) =~= Seq::<Seq<char>>::empty());
        assert(command_views(commands@) =~= Seq::<CommandView>::empty());
        while k < n
            invariant
                k <= n == ls@.len(),
                lv == views(ls@),
                lv == lines(content@),
                command_views(commands@) == commands_of_lines(lv.take(k as int)),
                error_views(errors@) == command_errors(lv.take(k as int)),
            decreases n - k,
        {
            let t = trim_chars(ls[k].as_slice());
            assert(lv.take(k + 1).drop_last() =~= lv.take(k as int));
            assert(lv.take(k + 1).last() == ls@[k as int]@);
            if t.len() == 0 || t[0] == '#' {
            } else {
                let line = string_of(t.as_slice());
                match self.parse_single_command(line.as_str()) {
                    Ok(cmd) => {
                        let ghost before = command_views(commands@);
                        commands.push(cmd);
                        assert(command_views(commands@) =~= before.push(command_view(cmd)));
                    },
                    Err(e) => {
                        let ghost before = error_views(errors@);
                        errors.push((k + 1, e));
                        assert(error_views(errors@) =~= before.push(((k + 1) as int, e@)));
                    },
                }
            }
            k = k + 1;
        }
        assert(lv.take(n as int) =~= lv);
        (commands, errors)
    }

    /// Reads the command on one line.
    pub fn parse_single_command(&self, line: &str) -> (r: Result<Command, String>)
        ensures
            match (r, single_command_spec(line@)) {
                (Ok(c), Ok(v)) => command_view(c) == v,
                (Err(e), Err(m)) => e@ == m,
                _ => false,
            },
    {
        let cs = chars_of(line);
        let n = cs.len();
        let mut i: usize = 0;
        assert(cs@.skip(0) =~= cs@);
        while i < n && cs[i] != ' '
            invariant
                i <= n == cs@.len(),
                before_sep(cs@, ' ') == cs@.take(i as int) + before_sep(cs@.skip(i as int), ' '),
                after_sep(cs@, ' ') == after_sep(cs@.skip(i as int), ' '),
            decreases n - i,
        {
            assert(cs@.skip(i as int).drop_first() =~= cs@.skip(i + 1));
            assert(cs@.take(i + 1) =~= cs@.take(i as int) + seq![cs@[i as int]]);
            i = i + 1;
        }
        let head = copy_range(cs.as_slice(), 0, i);
        let args = if i < n {
            assert(cs@.skip(i as int).drop_first() =~= cs@.subrange(i + 1, n as int));
            let rest = copy_range(cs.as_slice(), i + 1, n);
            trim_chars(rest.as_slice())
        } else {
            Vec::new()
        };
        assert(before_sep(cs@, ' ') =~= head@);
        let head_str = string_of(head.as_slice());
        let kind = string_chars(&uppercase_of(head_str.as_str()));
        let k = kind.as_slice();
        if is_literal(k, "ADD") {
            if args.len() == 0 {
                return Err(String::from_str("ADD requires CSV data"));
            }
            Ok(Command::Add(string_of(args.as_slice())))
        } else if is_literal(k, "REM") || is_literal(k, "REMOVE") {
            if args.len() == 0 {
                return Err(String::from_str("REM requires condition"));
            }
            let a = string_of(args.as_slice());
            match Condition::parse(a.as_str()) {
                Ok(_) => Ok(Command::Remove(a)),
                Err(m) => Err(m),
            }
        } else if is_literal(k, "SAVE") {
            if args.len() == 0 {
                return Err(String::from_str("SAVE requires filename"));
            }
            Ok(Command::Save(string_of(args.as_slice())))
        } else {
            let mut out: Vec<char> = Vec::new();
            push_str(&mut out, "Unknown command '");
            push_chars(&mut out, head.as_slice());
            push_str(&mut out, "'");
            Err(string_of(out.as_slice()))
        }
    }
}

/// Every `REM` command that the parser yields carries a condition that
/// reads: the condition of a removal is checked when the line is read.
pub proof fn lemma_removals_carry_conditions(ls: Seq<Seq<char>>, i: int)
    requires
        0 <= i < commands_of_lines(ls).len(),
        commands_of_lines(ls)[i].0 == CommandKind::Remove,
    ensures
        condition_spec(commands_of_lines(ls)[i].1) is Ok,
    decreases ls.len(),
{
    let rest = commands_of_lines(ls.drop_last());
    if i < rest.len() {
        lemma_removals_carry_conditions(ls.drop_last(), i);
    }
}

} // verus!
