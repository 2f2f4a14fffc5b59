//! Commands: how they are built, and which command and arguments a command line reaches.
use vstd::prelude::*;

use crate::flag::{opt_strings_view, strings_view, Flag};
use crate::text::str_eq;

verus! {

/// Application command type.
///
/// `A` is the type of the action that the command runs, such as a function
/// taking the command's [`crate::context::Context`]; `E` is the type of the
/// application data that the command holds (none by default).
#[verifier::reject_recursive_types(A)]
#[verifier::reject_recursive_types(E)]
pub struct Command<A, E = ()> {
    /// Command name
    pub name: String,
    /// Command description
    pub description: Option<String>,
    /// Command usage
    pub usage: Option<String>,
    /// Command action
    pub action: Option<A>,
    /// Action flags
    pub flags: Option<Vec<Flag>>,
    /// Command alias
    pub alias: Option<Vec<String>>,
    /// Sub commands
    pub commands: Option<Vec<Command<A, E>>>,
    /// Application data of the command, handed (with that of the commands
    /// above it) to its action
    pub extensions: E,
}

/// Where a command line leads: the help text of a command, or its action.
///
/// A command is named by its `path`: the position of each sub command taken,
/// from the command that ran the line down.
pub enum Dispatch {
    /// Show the help text of the command at `path`.
    ShowHelp { path: Vec<usize> },
    /// Run the action of the command at `path` with `args`.
    Invoke { path: Vec<usize>, args: Vec<String> },
}

impl Dispatch {
    /// The path of the command that the line reaches.
    pub open spec fn path_view(self) -> Seq<usize> {
        match self {
            Dispatch::ShowHelp { path } => path@,
            Dispatch::Invoke { path, .. } => path@,
        }
    }
}

impl<A, E> Command<A, E> {
    /// The sub commands; `None` reads as none.
    pub open spec fn subcommands(self) -> Seq<Command<A, E>> {
        match self.commands {
            Some(v) => v@,
            None => Seq::empty(),
        }
    }

    /// The flags; `None` reads as none.
    pub open spec fn flag_list(self) -> Seq<Flag> {
        match self.flags {
            Some(v) => v@,
            None => Seq::empty(),
        }
    }

    /// The command is called `word`, by its name or by one of its aliases.
    pub open spec fn answers_to(self, word: Seq<char>) -> bool {
        self.name@ == word || opt_strings_view(self.alias).contains(word)
    }
}

/// The names of the commands.
pub open spec fn command_names<A, E>(cmds: Seq<Command<A, E>>) -> Seq<Seq<char>> {
    cmds.map_values(|c: Command<A, E>| c.name@)
}

/// No two sub commands, at any depth, share a name.
pub open spec fn names_distinct<A, E>(c: Command<A, E>) -> bool
    decreases c,
{
    &&& command_names(c.subcommands()).no_duplicates()
    &&& forall|i: int|
        #![trigger c.subcommands()[i]]
        0 <= i < c.subcommands().len() ==> names_distinct(c.subcommands()[i])
}

/// `i` is the first of `cmds` that answers to `word`.
pub open spec fn is_first_match<A, E>(cmds: Seq<Command<A, E>>, word: Seq<char>, i: int) -> bool {
    &&& 0 <= i < cmds.len()
    &&& cmds[i].answers_to(word)
    &&& forall|j: int| 0 <= j < i ==> !(#[trigger] cmds[j]).answers_to(word)
}

/// The position of the first of `cmds` that answers to `word`, if any does.
pub open spec fn selected<A, E>(cmds: Seq<Command<A, E>>, word: Seq<char>) -> Option<int> {
    if exists|i: int| is_first_match(cmds, word, i) {
        Some(choose|i: int| is_first_match(cmds, word, i))
    } else {
        None
    }
}

/// `i` is the position of the first `c` in `s`.
pub open spec fn is_first_index(s: Seq<char>, c: char, i: int) -> bool {
    &&& 0 <= i < s.len()
    &&& s[i] == c
    &&& forall|j: int| 0 <= j < i ==> s[j] != c
}

/// The argument is a flag with a value after `=`, as in `--name=value`.
pub open spec fn is_flag_with_value(s: Seq<char>) -> bool {
    s.len() > 0 && s[0] == '-' && s.contains('=')
}

/// An argument as the command sees it: `--name=value` becomes `--name` and
/// `value` (split at the first `=`); any other argument stays as it is.
pub open spec fn normalize_arg(s: Seq<char>) -> Seq<Seq<char>> {
    if is_flag_with_value(s) {
        let i = choose|i: int| is_first_index(s, '=', i);
        seq![s.take(i), s.skip(i + 1)]
    } else {
        seq![s]
    }
}

/// The arguments as the command sees them: each one normalized, in order.
pub open spec fn normalize(args: Seq<Seq<char>>) -> Seq<Seq<char>>
    decreases args.len(),
{
    if args.len() == 0 {
        Seq::empty()
    } else {
        normalize(args.drop_last()) + normalize_arg(args.last())
    }
}

/// The line asks for help.
pub open spec fn wants_help(args: Seq<Seq<char>>) -> bool {
    args.contains("-h"@) || args.contains("--help"@)
}

/// The command that a command line reaches from `c`, the path to it, and the
/// arguments (normalized at that command) that it gets.
///
/// At each command the arguments are normalized; if the first one names a
/// sub command, the rest of the line goes to that sub command.
pub open spec fn resolve<A, E>(c: Command<A, E>, raw: Seq<Seq<char>>) -> (Command<A, E>, Seq<usize>, Seq<Seq<char>>)
    decreases c,
{
    let args = normalize(raw);
    if args.len() > 0 && selected(c.subcommands(), args[0]) is Some {
        let i = selected(c.subcommands(), args[0])->0;
        let r = resolve(c.subcommands()[i], args.drop_first());
        (r.0, seq![i as usize] + r.1, r.2)
    } else {
        (c, Seq::empty(), args)
    }
}

/// The command at `path` below `c`, if the path leads anywhere.
pub open spec fn at_path<A, E>(c: Command<A, E>, path: Seq<usize>) -> Option<Command<A, E>>
    decreases path.len(),
{
    if path.len() == 0 {
        Some(c)
    } else if path[0] < c.subcommands().len() {
        at_path(c.subcommands()[path[0] as int], path.drop_first())
    } else {
        None
    }
}

impl<A> Command<A> {
    /// Create new instance of `Command`, with no description, usage, action,
    /// flag, alias, sub command or application data.
    pub fn new(name: &str) -> (r: Self)
        ensures
            r.name@ == name@,
            r.description is None,
            r.usage is None,
            r.action is None,
            r.flags is None,
            r.alias is None,
            r.commands is None,
    {
        Self::new_with_extensions(name, ())
    }
}

impl<A, E: Default> Default for Command<A, E> {
    /// A command with an empty name, nothing set, and default application data.
    fn default() -> (r: Self)
        ensures
            r.name@ == Seq::<char>::empty(),
            r.description is None,
            r.usage is None,
            r.action is None,
            r.flags is None,
            r.alias is None,
            r.commands is None,
            call_ensures(E::default, (), r.extensions),
    {
        Command {
            name: String::new(),
            description: None,
            usage: None,
            action: None,
            flags: None,
            alias: None,
            commands: None,
            extensions: E::default(),
        }
    }
}

impl<A, E> Command<A, E> {
    /// Create new instance of `Command` holding the given application data,
    /// with no description, usage, action, flag, alias or sub command.
    pub fn new_with_extensions(name: &str, extensions: E) -> (r: Self)
        ensures
            r.name@ == name@,
            r.description is None,
            r.usage is None,
            r.action is None,
            r.flags is None,
            r.alias is None,
            r.commands is None,
            r.extensions == extensions,
    {
        Command {
            name: name.to_owned(),
            description: None,
            usage: None,
            action: None,
            flags: None,
            alias: None,
            commands: None,
            extensions,
        }
    }

    /// Set description of the command
    pub fn description(self, description: &str) -> (r: Self)
        ensures
            r.description matches Some(d) && d@ == description@,
            r.name == self.name,
            r.usage == self.usage,
            r.action == self.action,
            r.flags == self.flags,
            r.alias == self.alias,
            r.commands == self.commands,
            r.extensions == self.extensions,
    {
        Command { description: Some(description.to_owned()), ..self }
    }

    /// Set usage of the command
    pub fn usage(self, usage: &str) -> (r: Self)
        ensures
            r.usage matches Some(u) && u@ == usage@,
            r.name == self.name,
            r.description == self.description,
            r.action == self.action,
            r.flags == self.flags,
            r.alias == self.alias,
            r.commands == self.commands,
            r.extensions == self.extensions,
    {
        Command { usage: Some(usage.to_owned()), ..self }
    }

    /// Set action of the command
    pub fn action(self, action: A) -> (r: Self)
        ensures
            r.action == Some(action),
            r.name == self.name,
            r.description == self.description,
            r.usage == self.usage,
            r.flags == self.flags,
            r.alias == self.alias,
            r.commands == self.commands,
            r.extensions == self.extensions,
    {
        Command { action: Some(action), ..self }
    }

    /// Set flag of the command: the flag is added after the ones set before.
    pub fn flag(self, flag: Flag) -> (r: Self)
        ensures
            r.flags is Some,
            r.flag_list() == self.flag_list().push(flag),
            r.name == self.name,
            r.description == self.description,
            r.usage == self.usage,
            r.action == self.action,
            r.alias == self.alias,
            r.commands == self.commands,
            r.extensions == self.extensions,
    {
        let mut c = self;
        let ghost before = c.flag_list();
        let flags = match c.flags.take() {
            Some(mut v) => {
                v.push(flag);
                v
            },
            None => {
                let mut v: Vec<Flag> = Vec::new();
                v.push(flag);
                v
            },
        };
        assert(flags@ =~= before.push(flag));
        c.flags = Some(flags);
        c
    }

    /// Set alias of the command: the alias is added after the ones set before.
    pub fn alias(self, name: &str) -> (r: Self)
        ensures
            r.alias is Some,
            opt_strings_view(r.alias) == opt_strings_view(self.alias).push(name@),
            r.name == self.name,
            r.description == self.description,
            r.usage == self.usage,
            r.action == self.action,
            r.flags == self.flags,
            r.commands == self.commands,
            r.extensions == self.extensions,
    {
        let mut c = self;
        let ghost before = opt_strings_view(c.alias);
        let alias = match c.alias.take() {
            Some(mut v) => {
                v.push(name.to_owned());
                v
            },
            None => {
                let mut v: Vec<String> = Vec::new();
                v.push(name.to_owned());
                v
            },
        };
        assert(strings_view(alias@) =~= before.push(name@));
        c.alias = Some(alias);
        c
    }

    /// Set sub command of the command: it is added after the ones set before.
    ///
    /// A command cannot have two sub commands of the same name (the call is
    /// refused, as a panic, in that case), so its name must be new.
    pub fn command(self, command: Command<A, E>) -> (r: Self)
        requires
            !command_names(self.subcommands()).contains(command.name@),
        ensures
            r.commands is Some,
            r.subcommands() == self.subcommands().push(command),
            r.name == self.name,
            r.description == self.description,
            r.usage == self.usage,
            r.action == self.action,
            r.flags == self.flags,
            r.alias == self.alias,
            r.extensions == self.extensions,
    {
        let mut c = self;
        let ghost before = c.subcommands();
        let commands = match c.commands.take() {
            Some(mut v) => {
                v.push(command);
                v
            },
            None => {
                let mut v: Vec<Command<A, E>> = Vec::new();
                v.push(command);
                v
            },
        };
        assert(commands@ =~= before.push(command));
        c.commands = Some(commands);
        c
    }

    /// The command is called `word`, by its name or one of its aliases.
    fn is_called(&self, word: &str) -> (b: bool)
        ensures
            b == self.answers_to(word@),
    {
        if str_eq(self.name.as_str(), word) {
            return true;
        }
        match &self.alias {
            Some(alias) => {
                let mut i: usize = 0;
                while i < alias.len()
                    invariant
                        i <= alias@.len(),
                        self.alias == Some(*alias),
                        self.name@ != word@,
                        forall|j: int| 0 <= j < i ==> alias@[j]@ != word@,
                    decreases alias@.len() - i,
                {
                    if str_eq(alias[i].as_str(), word) {
                        assert(strings_view(alias@)[i as int] == word@);
                        return true;
                    }
                    i = i + 1;
                }
                proof {
                    if opt_strings_view(self.alias).contains(word@) {
                        let k = choose|k: int|
                            0 <= k < strings_view(alias@).len() && strings_view(alias@)[k]
                                == word@;
                        assert(alias@[k]@ == word@);
                    }
                }
                false
            },
            None => false,
        }
    }

    /// The position of the first sub command called `cmd`, if any is.
    fn select_command(&self, cmd: &str) -> (r: Option<usize>)
        ensures
            match r {
                Some(i) => selected(self.subcommands(), cmd@) == Some(i as int),
                None => selected(self.subcommands(), cmd@) is None,
            },
    {
        match &self.commands {
            Some(commands) => {
                let mut i: usize = 0;
                while i < commands.len()
                    invariant
                        i <= commands@.len(),
                        self.subcommands() == commands@,
                        forall|j: int| 0 <= j < i ==> !(#[trigger] commands@[j]).answers_to(cmd@),
                    decreases commands@.len() - i,
                {
                    if commands[i].is_called(cmd) {
                        proof {
                            let cmds = commands@;
                            assert(is_first_match(cmds, cmd@, i as int));
                            let k = choose|k: int| is_first_match(cmds, cmd@, k);
                            if k < i {
                                assert(!cmds[k].answers_to(cmd@));
                            }
                            if k > i {
                                assert(!cmds[i as int].answers_to(cmd@));
                            }
                        }
                        return Some(i);
                    }
                    i = i + 1;
                }
                None
            },
            None => None,
        }
    }

    /// An argument as the command sees it (see [`normalize_arg`]).
    fn normalized_arg(arg: &String) -> (r: Vec<String>)
        ensures
            strings_view(r@) == normalize_arg(arg@),
    {
        let s = arg.as_str();
        let n = s.unicode_len();
        let mut r: Vec<String> = Vec::new();
        if n > 0 && s.get_char(0) == '-' {
            let mut k: usize = 0;
            while k < n
                invariant
                    k <= n,
                    n == s@.len(),
                    s@ == arg@,
                    s@[0] == '-',
                    r@.len() == 0,
                    forall|j: int| 0 <= j < k ==> s@[j] != '=',
                decreases n - k,
            {
                if s.get_char(k) == '=' {
                    let first = s.substring_char(0, k).to_owned();
                    let second = s.substring_char(k + 1, n).to_owned();
                    proof {
                        let sv = s@;
                        assert(is_first_index(sv, '=', k as int));
                        let i = choose|i: int| is_first_index(sv, '=', i);
                        if i < k {
                            assert(sv[i] != '=');
                        }
                        if i > k {
                            assert(sv[k as int] == '=');
                        }
                        assert(sv.skip(k + 1) =~= sv.subrange(k + 1, n as int));
                        assert(sv.take(k as int) =~= sv.subrange(0, k as int));
                        assert(sv.contains('='));
                        assert(is_flag_with_value(sv));
                        assert(i == k);
                    }
                    r.push(first);
                    r.push(second);
                    assert(strings_view(r@) =~= normalize_arg(arg@));
                    return r;
                }
                k = k + 1;
            }
        }
        proof {
            if is_flag_with_value(s@) {
                let j = choose|j: int| 0 <= j < s@.len() && s@[j] == '=';
                assert(s@[j] == '=');
            }
        }
        r.push(arg.clone());
        assert(strings_view(r@) =~= normalize_arg(arg@));
        r
    }

    /// The arguments as the command sees them (see [`normalize`]).
    fn normalized_args(raw_args: Vec<String>) -> (r: Vec<String>)
        ensures
            strings_view(r@) == normalize(strings_view(raw_args@)),
    {
        let mut acc: Vec<String> = Vec::new();
        let mut i: usize = 0;
        let ghost raw = strings_view(raw_args@);
        assert(raw.take(0) =~= Seq::<Seq<char>>::empty());
        while i < raw_args.len()
            invariant
                i <= raw_args@.len(),
                raw == strings_view(raw_args@),
                strings_view(acc@) == normalize(raw.take(i as int)),
            decreases raw_args@.len() - i,
        {
            let mut piece = Self::normalized_arg(&raw_args[i]);
            let ghost before = acc@;
            let ghost p = piece@;
            acc.append(&mut piece);
            proof {
                assert(raw.take(i + 1).drop_last() =~= raw.take(i as int));
                assert(raw.take(i + 1).last() == raw_args@[i as int]@);
                assert(strings_view(acc@) =~= strings_view(before) + strings_view(p));
            }
            i = i + 1;
        }
        assert(raw.take(raw_args@.len() as int) =~= raw);
        acc
    }

    /// Whether the arguments ask for help (see [`wants_help`]).
    fn asks_for_help(args: &Vec<String>) -> (b: bool)
        ensures
            b == wants_help(strings_view(args@)),
    {
        let mut i: usize = 0;
        while i < args.len()
            invariant
                i <= args@.len(),
                forall|j: int|
                    0 <= j < i ==> args@[j]@ != "-h"@ && args@[j]@ != "--help"@,
            decreases args@.len() - i,
        {
            if str_eq(args[i].as_str(), "-h") || str_eq(args[i].as_str(), "--help") {
                assert(strings_view(args@)[i as int] == args@[i as int]@);
                return true;
            }
            i = i + 1;
        }
        proof {
            let sv = strings_view(args@);
            if sv.contains("-h"@) {
                let k = choose|k: int| 0 <= k < sv.len() && sv[k] == "-h"@;
                assert(args@[k]@ == "-h"@);
            }
            if sv.contains("--help"@) {
                let k = choose|k: int| 0 <= k < sv.len() && sv[k] == "--help"@;
                assert(args@[k]@ == "--help"@);
            }
        }
        false
    }

    /// Run command: decides where the command line leads.
    ///
    /// The arguments are normalized (see [`normalize`]); if the first one
    /// names a sub command, the rest of the line runs that sub command.
    /// Otherwise the line shows this command's help text when the command
    /// has no action or the line holds `-h` or `--help`, and else runs the
    /// action with the normalized arguments.
    pub fn run(&self, args: Vec<String>) -> (d: Dispatch)
        ensures
            d.path_view() == resolve(*self, strings_view(args@)).1,
            d is ShowHelp <==> (resolve(*self, strings_view(args@)).0.action is None || wants_help(
                resolve(*self, strings_view(args@)).2,
            )),
            d matches Dispatch::Invoke { args: out, .. } ==> strings_view(out@) == resolve(
                *self,
                strings_view(args@),
            ).2,
        decreases self,
    {
        let ghost raw = strings_view(args@);
        let mut args = Self::normalized_args(args);
        if args.len() > 0 {
            let sel = self.select_command(args[0].as_str());
            if let Some(i) = sel {
                match &self.commands {
                    Some(commands) => {
                        let ghost all = strings_view(args@);
                        let _cmd = args.remove(0);
                        assert(strings_view(args@) =~= all.drop_first());
                        let sub = &commands[i];
                        let d = sub.run(args);
                        let mut path: Vec<usize> = Vec::new();
                        path.push(i);
                        return match d {
                            Dispatch::ShowHelp { path: mut rest } => {
                                path.append(&mut rest);
                                Dispatch::ShowHelp { path }
                            },
                            Dispatch::Invoke { path: mut rest, args } => {
                                path.append(&mut rest);
                                Dispatch::Invoke { path, args }
                            },
                        };
                    },
                    None => {
                        assert(false);
                    },
                }
            }
        }
        if self.action.is_none() || Self::asks_for_help(&args) {
            Dispatch::ShowHelp { path: Vec::new() }
        } else {
            Dispatch::Invoke { path: Vec::new(), args }
        }
    }

    /// The command at `path` below this one.
    pub fn at(&self, path: &Vec<usize>) -> (c: &Command<A, E>)
        requires
            at_path(*self, path@) is Some,
        ensures
            Some(*c) == at_path(*self, path@),
    {
        let mut cur = self;
        let mut k: usize = 0;
        assert(path@.skip(0) =~= path@);
        while k < path.len()
            invariant
                k <= path@.len(),
                at_path(*self, path@) == at_path(*cur, path@.skip(k as int)),
                at_path(*self, path@) is Some,
            decreases path@.len() - k,
        {
            assert(path@.skip(k as int).drop_first() =~= path@.skip(k + 1));
            assert(path@.skip(k as int)[0] == path@[k as int]);
            match &cur.commands {
                Some(commands) => {
                    cur = &commands[path[k]];
                },
                None => {
                    assert(false);
                },
            }
            k = k + 1;
        }
        assert(path@.skip(k as int) =~= Seq::<usize>::empty());
        cur
    }
}

} // verus!
