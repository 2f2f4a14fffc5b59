//! The help text of a command.
use vstd::prelude::*;

use crate::command::Command;
use crate::flag::{strings_view, Flag, FlagType};
use crate::text::{
    byte_len, join, lemma_max_byte_len, max_byte_len, prefixed, push_joined, push_spaces, spaces,
    str_byte_len,
};

verus! {

/// What the help text shows after a flag for the value it takes.
pub open spec fn value_hint(t: FlagType) -> Seq<char> {
    match t {
        FlagType::Int => "<int>"@,
        FlagType::Float => "<float>"@,
        FlagType::String => "<string>"@,
        FlagType::Bool => ""@,
    }
}

/// The flag's aliases, each written `-alias`, joined by `, `.
pub open spec fn flag_alias_text(f: Flag) -> Seq<char> {
    match f.alias {
        Some(v) => join(prefixed(strings_view(v@), "-"@), ", "@),
        None => Seq::empty(),
    }
}

/// How the help text names a flag: its aliases, if the text of them is not
/// empty, then `--name` and the value hint.
pub open spec fn flag_entry(f: Flag) -> Seq<char> {
    let alias = flag_alias_text(f);
    if alias.len() == 0 {
        "--"@ + f.name@ + " "@ + value_hint(f.flag_type)
    } else {
        alias + ", --"@ + f.name@ + " "@ + value_hint(f.flag_type)
    }
}

/// How the help text names the help flag.
pub open spec fn help_flag_entry() -> Seq<char> {
    "-h, --help"@
}

/// The width of the flag column: the byte length of the longest entry,
/// the help flag's included.
pub open spec fn flag_width(flags: Seq<Flag>) -> nat {
    max_byte_len(flags.map_values(|f: Flag| flag_entry(f)), byte_len(help_flag_entry()))
}

/// The help line of a flag: its entry and, if it has a description, the
/// description after ` : `, at the column `width` bytes in.
pub open spec fn flag_line(f: Flag, width: nat) -> Seq<char> {
    match f.description {
        Some(d) => "\t"@ + flag_entry(f) + spaces((width - byte_len(flag_entry(f))) as nat)
            + " : "@ + d@ + "\n"@,
        None => "\t"@ + flag_entry(f) + "\n"@,
    }
}

/// The help lines of the flags, in order.
pub open spec fn flag_lines(flags: Seq<Flag>, width: nat) -> Seq<char>
    decreases flags.len(),
{
    if flags.len() == 0 {
        Seq::empty()
    } else {
        flag_lines(flags.drop_last(), width) + flag_line(flags.last(), width)
    }
}

/// The `Flags:` section of a help text.
pub open spec fn flag_help<A, E>(c: Command<A, E>) -> Seq<char> {
    "Flags:\n"@ + match c.flags {
        Some(v) => flag_lines(v@, flag_width(v@)) + "\t"@ + help_flag_entry() + spaces(
            (flag_width(v@) - byte_len(help_flag_entry())) as nat,
        ) + " : Show help\n"@,
        None => "\t"@ + help_flag_entry() + " : Show help\n"@,
    }
}

/// How the help text names a sub command: its aliases joined by `, `, if it
/// has an alias list, then `, ` and its name; else its name.
pub open spec fn command_label<A, E>(c: Command<A, E>) -> Seq<char> {
    match c.alias {
        Some(v) => join(strings_view(v@), ", "@) + ", "@ + c.name@,
        None => c.name@,
    }
}

/// The width of the command column: the byte length of the longest label.
pub open spec fn command_width<A, E>(cmds: Seq<Command<A, E>>) -> nat {
    max_byte_len(cmds.map_values(|c: Command<A, E>| command_label(c)), 0)
}

/// The description of a command, empty when it has none.
pub open spec fn description_text<A, E>(c: Command<A, E>) -> Seq<char> {
    match c.description {
        Some(d) => d@,
        None => Seq::empty(),
    }
}

/// The help line of a sub command: its label, then its description after `: `
/// at the column one byte past `width`.
pub open spec fn command_line<A, E>(c: Command<A, E>, width: nat) -> Seq<char> {
    "\t"@ + command_label(c) + " "@ + spaces((width - byte_len(command_label(c))) as nat) + ": "@
        + description_text(c) + "\n"@
}

/// The help lines of the sub commands, in order.
pub open spec fn command_lines<A, E>(cmds: Seq<Command<A, E>>, width: nat) -> Seq<char>
    decreases cmds.len(),
{
    if cmds.len() == 0 {
        Seq::empty()
    } else {
        command_lines(cmds.drop_last(), width) + command_line(cmds.last(), width)
    }
}

/// The `Commands:` section of a help text; empty when there are no sub commands.
pub open spec fn command_help<A, E>(c: Command<A, E>) -> Seq<char> {
    match c.commands {
        Some(v) => "\nCommands:\n"@ + command_lines(v@, command_width(v@)),
        None => Seq::empty(),
    }
}

/// The help text of a command: its description and usage when it has them,
/// its flags, and its sub commands.
pub open spec fn help_text_of<A, E>(c: Command<A, E>) -> Seq<char> {
    (match c.description {
        Some(d) => "Description:\n\t"@ + d@ + "\n\n"@,
        None => Seq::empty(),
    }) + (match c.usage {
        Some(u) => "Usage:\n\t"@ + u@ + "\n\n"@,
        None => Seq::empty(),
    }) + flag_help(c) + command_help(c)
}

/// The help text can be made: a command whose sub command list is present
/// is not empty (an empty one has no widest label).
pub open spec fn can_show_help<A, E>(c: Command<A, E>) -> bool {
    c.commands matches Some(v) ==> v@.len() > 0
}

/// The value hint of a flag kind.
fn value_hint_str(t: FlagType) -> (r: &'static str)
    ensures
        r@ == value_hint(t),
{
    match t {
        FlagType::Int => "<int>",
        FlagType::Float => "<float>",
        FlagType::String => "<string>",
        FlagType::Bool => "",
    }
}

/// The help text's name for a flag.
fn flag_entry_text(f: &Flag) -> (r: String)
    ensures
        r@ == flag_entry(*f),
{
    let mut alias = String::new();
    match &f.alias {
        Some(v) => push_joined(&mut alias, v, "-", ", "),
        None => {},
    }
    assert(alias@ =~= flag_alias_text(*f));
    let mut text = String::new();
    if alias.as_str().is_empty() {
        text.append("--");
    } else {
        text.append(alias.as_str());
        text.append(", --");
    }
    text.append(f.name.as_str());
    text.append(" ");
    text.append(value_hint_str(f.flag_type));
    assert(text@ =~= flag_entry(*f));
    text
}

/// The help text's name for a sub command.
fn command_label_text<A, E>(c: &Command<A, E>) -> (r: String)
    ensures
        r@ == command_label(*c),
{
    let mut text = String::new();
    match &c.alias {
        Some(v) => {
            push_joined(&mut text, v, "", ", ");
            proof {
                reveal_strlit("");
                assert(prefixed(strings_view(v@), ""@) =~= strings_view(v@));
            }
            text.append(", ");
        },
        None => {},
    }
    text.append(c.name.as_str());
    assert(text@ =~= command_label(*c));
    text
}

/// The largest byte length among the texts, or `floor` when it is larger.
fn max_len(texts: &Vec<String>, floor: usize) -> (m: usize)
    ensures
        m == max_byte_len(strings_view(texts@), floor as nat),
{
    let ghost all = strings_view(texts@);
    let mut m = floor;
    let mut i: usize = 0;
    assert(all.take(0) =~= Seq::<Seq<char>>::empty());
    while i < texts.len()
        invariant
            i <= texts@.len(),
            all == strings_view(texts@),
            m == max_byte_len(all.take(i as int), floor as nat),
        decreases texts@.len() - i,
    {
        let n = str_byte_len(texts[i].as_str());
        assert(all.take(i + 1).drop_last() =~= all.take(i as int));
        if n > m {
            m = n;
        }
        i = i + 1;
    }
    assert(all.take(texts@.len() as int) =~= all);
    m
}

impl<A, E> Command<A, E> {
    /// The `Flags:` section of the help text.
    fn flag_help_text(&self) -> (r: String)
        ensures
            r@ == flag_help(*self),
    {
        let mut text = String::new();
        text.append("Flags:\n");
        proof {
            reveal_strlit("-h, --help");
            assert(vstd::utf8::is_ascii_chars(help_flag_entry()));
            vstd::utf8::is_ascii_chars_encode_utf8(help_flag_entry());
        }
        let help_flag = "-h, --help";
        match &self.flags {
            Some(flags) => {
                let ghost fs = flags@;
                let ghost entries_spec = fs.map_values(|f: Flag| flag_entry(f));
                let mut entries: Vec<String> = Vec::new();
                let mut i: usize = 0;
                while i < flags.len()
                    invariant
                        i <= flags@.len(),
                        fs == flags@,
                        entries_spec == fs.map_values(|f: Flag| flag_entry(f)),
                        strings_view(entries@) == entries_spec.take(i as int),
                    decreases flags@.len() - i,
                {
                    let e = flag_entry_text(&flags[i]);
                    let ghost before = entries@;
                    let ghost ev = e@;
                    entries.push(e);
                    assert(strings_view(entries@) =~= strings_view(before).push(ev));
                    assert(entries_spec.take(i + 1) =~= entries_spec.take(i as int).push(entries_spec[i as int]));
                    assert(entries_spec[i as int] == flag_entry(fs[i as int]));
                    assert(strings_view(entries@) =~= entries_spec.take(i + 1));
                    i = i + 1;
                }
                assert(entries_spec.take(flags@.len() as int) =~= entries_spec);
                let width = max_len(&entries, 10);
                assert(width == flag_width(fs));
                proof {
                    lemma_max_byte_len(entries_spec, 10);
                }
                let ghost head = text@;
                let mut k: usize = 0;
                assert(fs.take(0) =~= Seq::<Flag>::empty());
                while k < flags.len()
                    invariant
                        k <= flags@.len(),
                        fs == flags@,
                        entries@.len() == fs.len(),
                        entries_spec == fs.map_values(|f: Flag| flag_entry(f)),
                        strings_view(entries@) == entries_spec,
                        width == flag_width(fs),
                        forall|j: int|
                            0 <= j < entries_spec.len() ==> byte_len(#[trigger] entries_spec[j])
                                <= width,
                        text@ == head + flag_lines(fs.take(k as int), width as nat),
                    decreases flags@.len() - k,
                {
                    let ghost before = text@;
                    text.append("\t");
                    text.append(entries[k].as_str());
                    assert(entries_spec[k as int] == flag_entry(fs[k as int]));
                    assert(strings_view(entries@)[k as int] == entries@[k as int]@);
                    match &flags[k].description {
                        Some(usage) => {
                            let len = str_byte_len(entries[k].as_str());
                            assert(byte_len(entries_spec[k as int]) <= width);
                            push_spaces(&mut text, width - len);
                            text.append(" : ");
                            text.append(usage.as_str());
                            text.append("\n");
                        },
                        None => {
                            text.append("\n");
                        },
                    }
                    proof {
                        assert(fs.take(k + 1).drop_last() =~= fs.take(k as int));
                        assert(fs.take(k + 1).last() == fs[k as int]);
                        assert(text@ =~= before + flag_line(fs[k as int], width as nat));
                    }
                    k = k + 1;
                }
                assert(fs.take(flags@.len() as int) =~= fs);
                text.append("\t");
                text.append(help_flag);
                push_spaces(&mut text, width - 10);
                text.append(" : Show help\n");
            },
            None => {
                text.append("\t");
                text.append(help_flag);
                text.append(" : Show help\n");
            },
        }
        assert(text@ =~= flag_help(*self));
        text
    }

    /// The `Commands:` section of the help text.
    fn command_help_text(&self) -> (r: String)
        requires
            can_show_help(*self),
        ensures
            r@ == command_help(*self),
    {
        let mut text = String::new();
        match &self.commands {
            Some(commands) => {
                text.append("\nCommands:\n");
                let ghost cs = commands@;
                let ghost labels_spec = cs.map_values(|c: Command<A, E>| command_label(c));
                let mut labels: Vec<String> = Vec::new();
                let mut i: usize = 0;
                while i < commands.len()
                    invariant
                        i <= commands@.len(),
                        cs == commands@,
                        labels_spec == cs.map_values(|c: Command<A, E>| command_label(c)),
                        strings_view(labels@) == labels_spec.take(i as int),
                    decreases commands@.len() - i,
                {
                    let l = command_label_text(&commands[i]);
                    let ghost before = labels@;
                    let ghost lv = l@;
                    labels.push(l);
                    assert(strings_view(labels@) =~= strings_view(before).push(lv));
                    assert(labels_spec.take(i + 1) =~= labels_spec.take(i as int).push(labels_spec[i as int]));
                    assert(labels_spec[i as int] == command_label(cs[i as int]));
                    assert(strings_view(labels@) =~= labels_spec.take(i + 1));
                    i = i + 1;
                }
                assert(labels_spec.take(commands@.len() as int) =~= labels_spec);
                let width = max_len(&labels, 0);
                assert(width == command_width(cs));
                proof {
                    lemma_max_byte_len(labels_spec, 0);
                }
                let ghost head = text@;
                let mut k: usize = 0;
                assert(cs.take(0) =~= Seq::<Command<A, E>>::empty());
                while k < commands.len()
                    invariant
                        k <= commands@.len(),
                        cs == commands@,
                        labels@.len() == cs.len(),
                        labels_spec == cs.map_values(|c: Command<A, E>| command_label(c)),
                        strings_view(labels@) == labels_spec,
                        width == command_width(cs),
                        forall|j: int|
                            0 <= j < labels_spec.len() ==> byte_len(#[trigger] labels_spec[j])
                                <= width,
                        text@ == head + command_lines(cs.take(k as int), width as nat),
                    decreases commands@.len() - k,
                {
                    let ghost before = text@;
                    text.append("\t");
                    text.append(labels[k].as_str());
                    text.append(" ");
                    assert(labels_spec[k as int] == command_label(cs[k as int]));
                    assert(strings_view(labels@)[k as int] == labels@[k as int]@);
                    let len = str_byte_len(labels[k].as_str());
                    assert(byte_len(labels_spec[k as int]) <= width);
                    push_spaces(&mut text, width - len);
                    text.append(": ");
                    match &commands[k].description {
                        Some(d) => text.append(d.as_str()),
                        None => {},
                    }
                    text.append("\n");
                    proof {
                        assert(cs.take(k + 1).drop_last() =~= cs.take(k as int));
                        assert(cs.take(k + 1).last() == cs[k as int]);
                        assert(text@ =~= before + command_line(cs[k as int], width as nat));
                    }
                    k = k + 1;
                }
                assert(cs.take(commands@.len() as int) =~= cs);
            },
            None => {},
        }
        assert(text@ =~= command_help(*self));
        text
    }

    /// The help text of the command (see [`help_text_of`]).
    pub fn help_text(&self) -> (r: String)
        requires
            can_show_help(*self),
        ensures
            r@ == help_text_of(*self),
    {
        let mut text = String::new();
        match &self.description {
            Some(d) => {
                text.append("Description:\n\t");
                text.append(d.as_str());
                text.append("\n\n");
            },
            None => {},
        }
        match &self.usage {
            Some(u) => {
                text.append("Usage:\n\t");
                text.append(u.as_str());
                text.append("\n\n");
            },
            None => {},
        }
        let f = self.flag_help_text();
        text.append(f.as_str());
        let c = self.command_help_text();
        text.append(c.as_str());
        assert(text@ =~= help_text_of(*self));
        text
    }
}

} // verus!
