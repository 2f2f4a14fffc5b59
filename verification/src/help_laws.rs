//! What the help text shows, stated as what it holds and where.
use vstd::prelude::*;

use crate::command::Command;
use crate::flag::{strings_view, Flag};
use crate::help::{
    command_help, command_label, command_line, command_lines, command_width, description_text,
    flag_alias_text, flag_entry, flag_help, flag_line, flag_lines, flag_width, help_flag_entry,
    help_text_of, value_hint,
};
use crate::text::{byte_len, join, lemma_max_byte_len, prefixed, spaces};
use crate::flag::FlagType;

verus! {

/// `x` occurs in `s`, at some position.
pub open spec fn occurs_in(x: Seq<char>, s: Seq<char>) -> bool {
    exists|p: int, q: int| 0 <= p <= q <= s.len() && #[trigger] s.subrange(p, q) == x
}

/// A text occurs in itself.
pub proof fn lemma_occurs_self(x: Seq<char>)
    ensures
        occurs_in(x, x),
{
    assert(x.subrange(0, x.len() as int) =~= x);
}

/// What occurs in one side of a concatenation occurs in the whole.
pub proof fn lemma_occurs_concat(x: Seq<char>, a: Seq<char>, b: Seq<char>)
    ensures
        occurs_in(x, a) ==> occurs_in(x, a + b),
        occurs_in(x, b) ==> occurs_in(x, a + b),
{
    if occurs_in(x, a) {
        let (p, q) = choose|p: int, q: int| 0 <= p <= q <= a.len() && #[trigger] a.subrange(p, q) == x;
        assert((a + b).subrange(p, q) =~= x);
    }
    if occurs_in(x, b) {
        let (p, q) = choose|p: int, q: int| 0 <= p <= q <= b.len() && #[trigger] b.subrange(p, q) == x;
        assert((a + b).subrange(a.len() + p, a.len() + q) =~= x);
    }
}

/// Occurring is transitive.
pub proof fn lemma_occurs_trans(x: Seq<char>, y: Seq<char>, z: Seq<char>)
    requires
        occurs_in(x, y),
        occurs_in(y, z),
    ensures
        occurs_in(x, z),
{
    let (p, q) = choose|p: int, q: int| 0 <= p <= q <= y.len() && #[trigger] y.subrange(p, q) == x;
    let (r, t) = choose|r: int, t: int| 0 <= r <= t <= z.len() && #[trigger] z.subrange(r, t) == y;
    assert(z.subrange(r + p, r + q) =~= x);
}

/// Every part occurs in the parts joined.
pub proof fn lemma_part_occurs_in_join(parts: Seq<Seq<char>>, sep: Seq<char>, k: int)
    requires
        0 <= k < parts.len(),
    ensures
        occurs_in(parts[k], join(parts, sep)),
    decreases parts.len(),
{
    if parts.len() == 1 {
        lemma_occurs_self(parts[k]);
    } else if k == parts.len() - 1 {
        lemma_occurs_self(parts[k]);
        lemma_occurs_concat(parts[k], join(parts.drop_last(), sep) + sep, parts[k]);
    } else {
        lemma_part_occurs_in_join(parts.drop_last(), sep, k);
        assert(parts.drop_last()[k] == parts[k]);
        lemma_occurs_concat(parts[k], join(parts.drop_last(), sep), sep);
        lemma_occurs_concat(parts[k], join(parts.drop_last(), sep) + sep, parts.last());
    }
}

/// How the help text lists a sub command: every alias of it occurs in its
/// label, which ends with `, ` and its name; without an alias list, the
/// label is its name.
pub proof fn law_label_lists_every_alias<A, E>(c: Command<A, E>)
    ensures
        c.alias is None ==> command_label(c) == c.name@,
        c.alias is Some ==> (", "@ + c.name@).is_suffix_of(command_label(c)),
        c.alias is Some ==> forall|k: int|
            0 <= k < c.alias->0@.len() ==> occurs_in((#[trigger] c.alias->0@[k])@, command_label(c)),
{
    if c.alias is Some {
        let v = c.alias->0@;
        let l = command_label(c);
        let j = join(strings_view(v), ", "@);
        assert(l =~= j + (", "@ + c.name@));
        assert(l.subrange(l.len() - (", "@ + c.name@).len(), l.len() as int) =~= ", "@ + c.name@);
        assert forall|k: int| 0 <= k < v.len() implies occurs_in((#[trigger] v[k])@, l) by {
            lemma_part_occurs_in_join(strings_view(v), ", "@, k);
            assert(strings_view(v)[k] == v[k]@);
            lemma_occurs_concat(v[k]@, j, ", "@ + c.name@);
        }
    }
}

/// A sub command's help line holds its label and its description.
proof fn lemma_command_line_holds<A, E>(c: Command<A, E>, w: nat)
    ensures
        occurs_in(command_label(c), command_line(c, w)),
        occurs_in(description_text(c), command_line(c, w)),
{
    let l = command_label(c);
    let d = description_text(c);
    lemma_occurs_self(l);
    lemma_occurs_self(d);
    let a0 = "\t"@;
    let a1 = a0 + l;
    let a2 = a1 + " "@;
    let a3 = a2 + spaces((w - crate::text::byte_len(l)) as nat);
    let a4 = a3 + ": "@;
    let a5 = a4 + d;
    assert(command_line(c, w) == a5 + "\n"@);
    lemma_occurs_concat(l, a0, l);
    lemma_occurs_concat(l, a1, " "@);
    lemma_occurs_concat(l, a2, spaces((w - crate::text::byte_len(l)) as nat));
    lemma_occurs_concat(l, a3, ": "@);
    lemma_occurs_concat(l, a4, d);
    lemma_occurs_concat(l, a5, "\n"@);
    lemma_occurs_concat(d, a4, d);
    lemma_occurs_concat(d, a5, "\n"@);
}

/// Every sub command's help line occurs in the help lines.
proof fn lemma_command_line_in_lines<A, E>(cmds: Seq<Command<A, E>>, w: nat, i: int)
    requires
        0 <= i < cmds.len(),
    ensures
        occurs_in(command_line(cmds[i], w), command_lines(cmds, w)),
    decreases cmds.len(),
{
    let x = command_line(cmds[i], w);
    if i == cmds.len() - 1 {
        lemma_occurs_self(x);
        lemma_occurs_concat(x, command_lines(cmds.drop_last(), w), x);
    } else {
        lemma_command_line_in_lines(cmds.drop_last(), w, i);
        assert(cmds.drop_last()[i] == cmds[i]);
        lemma_occurs_concat(x, command_lines(cmds.drop_last(), w), command_line(cmds.last(), w));
    }
}

/// What the `Commands:` section holds also occurs in the help text.
proof fn lemma_in_command_help<A, E>(c: Command<A, E>, x: Seq<char>)
    requires
        occurs_in(x, command_help(c)),
    ensures
        occurs_in(x, help_text_of(c)),
{
    let head = help_text_of(c).subrange(0, help_text_of(c).len() - command_help(c).len());
    assert(help_text_of(c) =~= head + command_help(c));
    lemma_occurs_concat(x, head, command_help(c));
}

/// The help text lists every sub command: its name, each of its aliases and
/// its description occur in it.
pub proof fn law_help_lists_sub_commands<A, E>(c: Command<A, E>, i: int)
    requires
        0 <= i < c.subcommands().len(),
    ensures
        occurs_in(c.subcommands()[i].name@, help_text_of(c)),
        occurs_in(description_text(c.subcommands()[i]), help_text_of(c)),
        c.subcommands()[i].alias is Some ==> forall|k: int|
            0 <= k < c.subcommands()[i].alias->0@.len() ==> occurs_in(
                (#[trigger] c.subcommands()[i].alias->0@[k])@,
                help_text_of(c),
            ),
{
    let cmds = c.commands->0@;
    let s = cmds[i];
    let w = command_width(cmds);
    let lines = command_lines(cmds, w);
    lemma_command_line_in_lines(cmds, w, i);
    lemma_command_line_holds(s, w);
    lemma_occurs_trans(command_label(s), command_line(s, w), lines);
    lemma_occurs_trans(description_text(s), command_line(s, w), lines);
    assert(command_help(c) == "\nCommands:\n"@ + lines);
    lemma_occurs_concat(command_label(s), "\nCommands:\n"@, lines);
    lemma_occurs_concat(description_text(s), "\nCommands:\n"@, lines);
    lemma_in_command_help(c, command_label(s));
    lemma_in_command_help(c, description_text(s));
    law_label_lists_every_alias(s);
    let l = command_label(s);
    if s.alias is None {
        assert(l == s.name@);
        lemma_occurs_self(l);
    } else {
        let suffix = ", "@ + s.name@;
        assert(l.subrange(l.len() - s.name@.len(), l.len() as int) =~= s.name@);
        assert(occurs_in(s.name@, l));
        assert forall|k: int| 0 <= k < s.alias->0@.len() implies occurs_in(
            (#[trigger] s.alias->0@[k])@,
            help_text_of(c),
        ) by {
            lemma_occurs_trans(s.alias->0@[k]@, l, help_text_of(c));
        }
    }
    lemma_occurs_trans(s.name@, l, help_text_of(c));
}

/// The help text begins with the description section when the command has a
/// description, whether or not it has a usage; the usage section follows it
/// (or begins the text when there is no description); with neither, the text
/// begins with the flags section.
pub proof fn law_help_begins_with_description_then_usage<A, E>(c: Command<A, E>)
    ensures
        c.description matches Some(d) ==> ("Description:\n\t"@ + d@ + "\n\n"@).is_prefix_of(
            help_text_of(c),
        ),
        c.description is Some && c.usage is Some ==> ("Description:\n\t"@ + c.description->0@
            + "\n\n"@ + "Usage:\n\t"@ + c.usage->0@ + "\n\n"@).is_prefix_of(help_text_of(c)),
        c.description is None && c.usage is Some ==> ("Usage:\n\t"@ + c.usage->0@
            + "\n\n"@).is_prefix_of(help_text_of(c)),
        c.description is None ==> c.usage is None ==> "Flags:\n"@.is_prefix_of(help_text_of(c)),
{
    let t = help_text_of(c);
    if c.description is Some {
        let d = c.description->0@;
        let pre = "Description:\n\t"@ + d + "\n\n"@;
        assert(t.subrange(0, pre.len() as int) =~= pre);
        if c.usage is Some {
            let u = c.usage->0@;
            let pre2 = pre + "Usage:\n\t"@ + u + "\n\n"@;
            assert(t.subrange(0, pre2.len() as int) =~= pre2);
        }
    } else if c.usage is Some {
        let u = c.usage->0@;
        let pre = "Usage:\n\t"@ + u + "\n\n"@;
        assert(t.subrange(0, pre.len() as int) =~= pre);
    } else {
        assert(t.subrange(0, "Flags:\n"@.len() as int) =~= "Flags:\n"@);
    }
}

/// The value hint that the help text shows for a kind of flag.
pub open spec fn hint_shown(t: FlagType) -> Seq<char> {
    match t {
        FlagType::Int => "<int>"@,
        FlagType::Float => "<float>"@,
        FlagType::String => "<string>"@,
        FlagType::Bool => Seq::empty(),
    }
}

/// How the help text names a flag: it ends with `--name`, a space and the
/// hint for its kind of value; each alias occurs in it with `-` before it,
/// the first one at its start; without aliases it is `--name` and the hint.
pub proof fn law_flag_entry_shape(f: Flag)
    ensures
        ("--"@ + f.name@ + " "@ + hint_shown(f.flag_type)).is_suffix_of(flag_entry(f)),
        f.alias is Some ==> forall|k: int|
            0 <= k < f.alias->0@.len() ==> occurs_in("-"@ + (#[trigger] f.alias->0@[k])@, flag_entry(f)),
        (f.alias is Some && f.alias->0@.len() > 0) ==> ("-"@ + f.alias->0@[0]@).is_prefix_of(flag_entry(f)),
        (f.alias is None || f.alias->0@.len() == 0) ==> flag_entry(f) == "--"@ + f.name@ + " "@
            + hint_shown(f.flag_type),
{
    reveal_strlit("");
    assert(value_hint(f.flag_type) == hint_shown(f.flag_type));
    let e = flag_entry(f);
    let a = flag_alias_text(f);
    let tail = "--"@ + f.name@ + " "@ + hint_shown(f.flag_type);
    reveal_strlit(", --");
    reveal_strlit("--");
    reveal_strlit(", ");
    if a.len() == 0 {
        assert(e =~= tail);
    } else {
        assert(e =~= (a + ", "@) + tail);
    }
    assert(e.subrange(e.len() - tail.len(), e.len() as int) =~= tail);
    if f.alias is Some {
        let v = f.alias->0@;
        let parts = prefixed(strings_view(v), "-"@);
        assert forall|k: int| 0 <= k < v.len() implies occurs_in("-"@ + (#[trigger] v[k])@, e) by {
            lemma_part_occurs_in_join(parts, ", "@, k);
            assert(parts[k] == "-"@ + v[k]@);
            assert(occurs_in(parts[k], a));
            reveal_strlit("-");
            let (p, q) = choose|p: int, q: int| 0 <= p <= q <= a.len() && #[trigger] a.subrange(p, q) == parts[k];
            assert(q - p == parts[k].len());
            assert(a.len() > 0);
            assert(e =~= (a + ", "@) + tail);
            lemma_occurs_concat(parts[k], a, ", "@);
            lemma_occurs_concat(parts[k], a + ", "@, tail);
        }
        if v.len() > 0 {
            lemma_join_starts_with_first(parts, ", "@);
            assert(parts[0] == "-"@ + v[0]@);
            reveal_strlit("-");
            assert(a.len() > 0);
            assert(e =~= (a + ", "@) + tail);
            assert(e.subrange(0, parts[0].len() as int) =~= a.subrange(0, parts[0].len() as int));
        } else {
            assert(parts =~= Seq::<Seq<char>>::empty());
            assert(a =~= Seq::<char>::empty());
        }
    }
}

/// The joined parts begin with the first part.
proof fn lemma_join_starts_with_first(parts: Seq<Seq<char>>, sep: Seq<char>)
    requires
        parts.len() > 0,
    ensures
        parts[0].is_prefix_of(join(parts, sep)),
    decreases parts.len(),
{
    if parts.len() > 1 {
        lemma_join_starts_with_first(parts.drop_last(), sep);
        assert(parts.drop_last()[0] == parts[0]);
        let j = join(parts.drop_last(), sep);
        assert(join(parts, sep) =~= j + (sep + parts.last()));
        assert(join(parts, sep).subrange(0, parts[0].len() as int) =~= j.subrange(0, parts[0].len() as int));
    }
}

/// Every flag's help line occurs in the help lines.
proof fn lemma_flag_line_in_lines(fs: Seq<Flag>, w: nat, i: int)
    requires
        0 <= i < fs.len(),
    ensures
        occurs_in(flag_line(fs[i], w), flag_lines(fs, w)),
    decreases fs.len(),
{
    let x = flag_line(fs[i], w);
    if i == fs.len() - 1 {
        lemma_occurs_self(x);
        lemma_occurs_concat(x, flag_lines(fs.drop_last(), w), x);
    } else {
        lemma_flag_line_in_lines(fs.drop_last(), w, i);
        assert(fs.drop_last()[i] == fs[i]);
        lemma_occurs_concat(x, flag_lines(fs.drop_last(), w), flag_line(fs.last(), w));
    }
}

/// What the `Flags:` section holds also occurs in the help text.
proof fn lemma_in_flag_help<A, E>(c: Command<A, E>, x: Seq<char>)
    requires
        occurs_in(x, flag_help(c)),
    ensures
        occurs_in(x, help_text_of(c)),
{
    let t = help_text_of(c);
    let head = t.subrange(0, t.len() - command_help(c).len() - flag_help(c).len());
    assert(t =~= (head + flag_help(c)) + command_help(c));
    lemma_occurs_concat(x, head, flag_help(c));
    lemma_occurs_concat(x, head + flag_help(c), command_help(c));
}

/// Every flag's help line occurs in the help text.
#[verifier::rlimit(30)]
proof fn lemma_flag_line_in_help<A, E>(c: Command<A, E>, i: int)
    requires
        0 <= i < c.flag_list().len(),
    ensures
        occurs_in(flag_line(c.flag_list()[i], flag_width(c.flag_list())), help_text_of(c)),
{
    let fs = c.flags->0@;
    let w = flag_width(fs);
    let lines = flag_lines(fs, w);
    let line = flag_line(fs[i], w);
    lemma_flag_line_in_lines(fs, w, i);
    let rest = "\t"@ + help_flag_entry() + spaces((w - byte_len(help_flag_entry())) as nat)
        + " : Show help\n"@;
    assert(flag_help(c) =~= ("Flags:\n"@ + lines) + rest);
    lemma_occurs_concat(line, "Flags:\n"@, lines);
    lemma_occurs_concat(line, "Flags:\n"@ + lines, rest);
    lemma_in_flag_help(c, line);
}

/// The help text lists every flag: its entry starts a line after a tab, and
/// a described flag's description follows ` : ` and ends the line, while an
/// undescribed flag's line is its entry alone.
#[verifier::rlimit(30)]
pub proof fn law_help_lists_flags<A, E>(c: Command<A, E>, i: int)
    requires
        0 <= i < c.flag_list().len(),
    ensures
        occurs_in("\t"@ + flag_entry(c.flag_list()[i]), help_text_of(c)),
        c.flag_list()[i].description is Some ==> occurs_in(
            " : "@ + c.flag_list()[i].description->0@ + "\n"@,
            help_text_of(c),
        ),
        c.flag_list()[i].description is None ==> occurs_in(
            "\t"@ + flag_entry(c.flag_list()[i]) + "\n"@,
            help_text_of(c),
        ),
{
    let fs = c.flag_list();
    let f = fs[i];
    let w = flag_width(fs);
    let line = flag_line(f, w);
    let t = help_text_of(c);
    lemma_flag_line_in_help(c, i);
    let e = "\t"@ + flag_entry(f);
    lemma_occurs_self(e);
    if f.description is Some {
        let d = f.description->0@;
        let pad = spaces((w - byte_len(flag_entry(f))) as nat);
        let x = " : "@ + d + "\n"@;
        assert(line =~= (e + pad) + x);
        lemma_occurs_self(x);
        lemma_occurs_concat(x, e + pad, x);
        lemma_occurs_trans(x, line, t);
        assert(line =~= e + (pad + x));
        lemma_occurs_concat(e, e, pad + x);
    } else {
        assert(line =~= e + "\n"@);
        lemma_occurs_concat(e, e, "\n"@);
    }
    lemma_occurs_trans(e, line, t);
}

/// The `Flags:` section begins with `Flags:` and ends with the help flag's
/// line; the help text ends with it when the command has no sub command
/// list, and holds a `Commands:` section otherwise.
#[verifier::rlimit(60)]
pub proof fn law_help_sections<A, E>(c: Command<A, E>)
    ensures
        "Flags:\n"@.is_prefix_of(flag_help(c)),
        " : Show help\n"@.is_suffix_of(flag_help(c)),
        occurs_in(flag_help(c), help_text_of(c)),
        c.commands is None ==> " : Show help\n"@.is_suffix_of(help_text_of(c)),
        c.commands is Some ==> occurs_in("\nCommands:\n"@, help_text_of(c)),
{
    let fh = flag_help(c);
    let t = help_text_of(c);
    assert(fh.subrange(0, "Flags:\n"@.len() as int) =~= "Flags:\n"@);
    assert(fh.subrange(fh.len() - " : Show help\n"@.len(), fh.len() as int) =~= " : Show help\n"@);
    lemma_occurs_self(fh);
    lemma_in_flag_help(c, fh);
    if c.commands is None {
        assert(command_help(c) =~= Seq::<char>::empty());
        assert(t.subrange(t.len() - fh.len(), t.len() as int) =~= fh);
        assert(t.subrange(t.len() - " : Show help\n"@.len(), t.len() as int) =~= " : Show help\n"@);
    } else {
        let ch = command_help(c);
        let lines = command_lines(c.commands->0@, command_width(c.commands->0@));
        assert(ch =~= "\nCommands:\n"@ + lines);
        lemma_occurs_self("\nCommands:\n"@);
        lemma_occurs_concat("\nCommands:\n"@, "\nCommands:\n"@, lines);
        lemma_in_command_help(c, "\nCommands:\n"@);
    }
}

/// The flag column is as narrow as it can be: as wide as the widest flag
/// entry or the help flag, whichever is wider.
pub proof fn law_flag_width_is_widest(fs: Seq<Flag>)
    ensures
        byte_len(help_flag_entry()) <= flag_width(fs),
        forall|i: int| 0 <= i < fs.len() ==> byte_len(flag_entry(#[trigger] fs[i])) <= flag_width(fs),
        flag_width(fs) == byte_len(help_flag_entry()) || exists|i: int|
            0 <= i < fs.len() && byte_len(flag_entry(#[trigger] fs[i])) == flag_width(fs),
{
    let entries = fs.map_values(|f: Flag| flag_entry(f));
    lemma_max_byte_len(entries, byte_len(help_flag_entry()));
    assert forall|i: int| 0 <= i < fs.len() implies byte_len(flag_entry(#[trigger] fs[i])) <= flag_width(fs) by {
        assert(entries[i] == flag_entry(fs[i]));
    }
    if flag_width(fs) != byte_len(help_flag_entry()) {
        let i = choose|i: int| 0 <= i < entries.len() && byte_len(#[trigger] entries[i]) == flag_width(fs);
        assert(entries[i] == flag_entry(fs[i]));
    }
}

/// The command column is as narrow as it can be: as wide as the widest label.
pub proof fn law_command_width_is_widest<A, E>(cmds: Seq<Command<A, E>>)
    ensures
        forall|i: int| 0 <= i < cmds.len() ==> byte_len(command_label(#[trigger] cmds[i])) <= command_width(cmds),
        cmds.len() > 0 ==> exists|i: int|
            0 <= i < cmds.len() && byte_len(command_label(#[trigger] cmds[i])) == command_width(cmds),
{
    let labels = cmds.map_values(|c: Command<A, E>| command_label(c));
    lemma_max_byte_len(labels, 0);
    assert forall|i: int| 0 <= i < cmds.len() implies byte_len(command_label(#[trigger] cmds[i])) <= command_width(cmds) by {
        assert(labels[i] == command_label(cmds[i]));
    }
    if cmds.len() > 0 {
        if command_width(cmds) == 0 {
            assert(labels[0] == command_label(cmds[0]));
            assert(byte_len(command_label(cmds[0])) == 0);
        } else {
            let i = choose|i: int| 0 <= i < labels.len() && byte_len(#[trigger] labels[i]) == command_width(cmds);
            assert(labels[i] == command_label(cmds[i]));
        }
    }
}

/// In the `Commands:` section, each sub command's description follows `: `
/// and ends its line.
pub proof fn law_help_command_descriptions<A, E>(c: Command<A, E>, i: int)
    requires
        0 <= i < c.subcommands().len(),
    ensures
        occurs_in(": "@ + description_text(c.subcommands()[i]) + "\n"@, help_text_of(c)),
{
    let cmds = c.commands->0@;
    let s = cmds[i];
    let w = command_width(cmds);
    let lines = command_lines(cmds, w);
    let line = command_line(s, w);
    let x = ": "@ + description_text(s) + "\n"@;
    let pre = "\t"@ + command_label(s) + " "@ + spaces((w - byte_len(command_label(s))) as nat);
    assert(line =~= pre + x);
    lemma_occurs_self(x);
    lemma_occurs_concat(x, pre, x);
    lemma_command_line_in_lines(cmds, w, i);
    lemma_occurs_trans(x, line, lines);
    assert(command_help(c) == "\nCommands:\n"@ + lines);
    lemma_occurs_concat(x, "\nCommands:\n"@, lines);
    lemma_in_command_help(c, x);
}

/// The joined parts end with the last part.
proof fn lemma_join_ends_with_last(parts: Seq<Seq<char>>, sep: Seq<char>)
    requires
        parts.len() > 0,
    ensures
        parts.last().is_suffix_of(join(parts, sep)),
{
    let j = join(parts, sep);
    assert(j.subrange(j.len() - parts.last().len(), j.len() as int) =~= parts.last());
}

/// Neighbouring parts stand in the join with the separator between them.
pub proof fn lemma_join_neighbours(parts: Seq<Seq<char>>, sep: Seq<char>, k: int)
    requires
        0 <= k,
        k + 1 < parts.len(),
    ensures
        occurs_in(parts[k] + sep + parts[k + 1], join(parts, sep)),
    decreases parts.len(),
{
    let d = parts.drop_last();
    let jd = join(d, sep);
    if k + 1 == parts.len() - 1 {
        lemma_join_ends_with_last(d, sep);
        assert(d.last() == parts[k]);
        let x = parts[k] + sep + parts[k + 1];
        let j = join(parts, sep);
        assert(j == jd + sep + parts.last());
        let p = jd.len() - parts[k].len();
        assert(jd.subrange(p, jd.len() as int) =~= parts[k]);
        assert(j.subrange(p, j.len() as int) =~= x);
    } else {
        lemma_join_neighbours(d, sep, k);
        assert(d[k] == parts[k] && d[k + 1] == parts[k + 1]);
        lemma_occurs_concat(parts[k] + sep + parts[k + 1], jd, sep);
        lemma_occurs_concat(parts[k] + sep + parts[k + 1], jd + sep, parts.last());
    }
}

/// Neighbouring aliases of a flag stand in its entry as `-a, -b`, and, when
/// it has aliases, `, --name`, a space and the hint end the entry.
pub proof fn law_flag_aliases_separated(f: Flag)
    ensures
        f.alias is Some ==> forall|k: int|
            0 <= k && k + 1 < f.alias->0@.len() ==> occurs_in(
                "-"@ + (#[trigger] f.alias->0@[k])@ + ", "@ + "-"@ + f.alias->0@[k + 1]@,
                flag_entry(f),
            ),
        (f.alias is Some && f.alias->0@.len() > 0) ==> (", "@ + "--"@ + f.name@ + " "@ + hint_shown(
            f.flag_type,
        )).is_suffix_of(flag_entry(f)),
{
    reveal_strlit("");
    reveal_strlit(", --");
    reveal_strlit("--");
    reveal_strlit(", ");
    reveal_strlit("-");
    assert(value_hint(f.flag_type) == hint_shown(f.flag_type));
    if f.alias is Some {
        let v = f.alias->0@;
        let parts = prefixed(strings_view(v), "-"@);
        let a = flag_alias_text(f);
        let e = flag_entry(f);
        let tail = "--"@ + f.name@ + " "@ + hint_shown(f.flag_type);
        if v.len() > 0 {
            lemma_part_occurs_in_join(parts, ", "@, 0);
            let (p, q) = choose|p: int, q: int| 0 <= p <= q <= a.len() && #[trigger] a.subrange(p, q) == parts[0];
            assert(parts[0] == "-"@ + v[0]@);
            assert(q - p == parts[0].len());
            assert(a.len() > 0);
            assert(e =~= a + (", "@ + tail));
            let t2 = ", "@ + "--"@ + f.name@ + " "@ + hint_shown(f.flag_type);
            assert(t2 =~= ", "@ + tail);
            assert(e.subrange(e.len() - t2.len(), e.len() as int) =~= t2);
            assert forall|k: int| 0 <= k && k + 1 < v.len() implies occurs_in(
                "-"@ + (#[trigger] v[k])@ + ", "@ + "-"@ + v[k + 1]@,
                e,
            ) by {
                lemma_join_neighbours(parts, ", "@, k);
                assert(parts[k] == "-"@ + v[k]@ && parts[k + 1] == "-"@ + v[k + 1]@);
                assert(parts[k] + ", "@ + parts[k + 1] =~= "-"@ + v[k]@ + ", "@ + "-"@ + v[k + 1]@);
                lemma_occurs_concat(parts[k] + ", "@ + parts[k + 1], a, ", "@ + tail);
            }
        }
    }
}

/// Neighbouring aliases of a sub command stand in its label as `a, b`.
pub proof fn law_label_aliases_separated<A, E>(c: Command<A, E>)
    ensures
        c.alias is Some ==> forall|k: int|
            0 <= k && k + 1 < c.alias->0@.len() ==> occurs_in(
                (#[trigger] c.alias->0@[k])@ + ", "@ + c.alias->0@[k + 1]@,
                command_label(c),
            ),
{
    if c.alias is Some {
        let v = c.alias->0@;
        let sv = strings_view(v);
        let j = join(sv, ", "@);
        assert(command_label(c) =~= j + (", "@ + c.name@));
        assert forall|k: int| 0 <= k && k + 1 < v.len() implies occurs_in(
            (#[trigger] v[k])@ + ", "@ + v[k + 1]@,
            command_label(c),
        ) by {
            lemma_join_neighbours(sv, ", "@, k);
            assert(sv[k] == v[k]@ && sv[k + 1] == v[k + 1]@);
            lemma_occurs_concat(v[k]@ + ", "@ + v[k + 1]@, j, ", "@ + c.name@);
        }
    }
}

/// `x` occurs before `y` in `s`, the two not overlapping.
pub open spec fn occurs_before(x: Seq<char>, y: Seq<char>, s: Seq<char>) -> bool {
    exists|p: int, q: int, r: int, t: int|
        0 <= p <= q <= r <= t <= s.len() && #[trigger] s.subrange(p, q) == x && #[trigger] s.subrange(r, t) == y
}

/// Order is kept when more text is put around.
proof fn lemma_before_concat(x: Seq<char>, y: Seq<char>, a: Seq<char>, b: Seq<char>)
    ensures
        occurs_before(x, y, a) ==> occurs_before(x, y, a + b),
        occurs_before(x, y, b) ==> occurs_before(x, y, a + b),
        (occurs_in(x, a) && occurs_in(y, b)) ==> occurs_before(x, y, a + b),
{
    if occurs_before(x, y, a) {
        let (p, q, r, t) = choose|p: int, q: int, r: int, t: int|
            0 <= p <= q <= r <= t <= a.len() && #[trigger] a.subrange(p, q) == x && #[trigger] a.subrange(r, t) == y;
        assert((a + b).subrange(p, q) =~= x);
        assert((a + b).subrange(r, t) =~= y);
    }
    if occurs_before(x, y, b) {
        let (p, q, r, t) = choose|p: int, q: int, r: int, t: int|
            0 <= p <= q <= r <= t <= b.len() && #[trigger] b.subrange(p, q) == x && #[trigger] b.subrange(r, t) == y;
        let n = a.len() as int;
        assert((a + b).subrange(n + p, n + q) =~= x);
        assert((a + b).subrange(n + r, n + t) =~= y);
    }
    if occurs_in(x, a) && occurs_in(y, b) {
        let (p, q) = choose|p: int, q: int| 0 <= p <= q <= a.len() && #[trigger] a.subrange(p, q) == x;
        let (r, t) = choose|r: int, t: int| 0 <= r <= t <= b.len() && #[trigger] b.subrange(r, t) == y;
        let n = a.len() as int;
        assert((a + b).subrange(p, q) =~= x);
        assert((a + b).subrange(n + r, n + t) =~= y);
    }
}

/// Flag lines come in the order the flags were added.
proof fn lemma_flag_lines_in_order(fs: Seq<Flag>, w: nat, i: int, j: int)
    requires
        0 <= i < j < fs.len(),
    ensures
        occurs_before(flag_line(fs[i], w), flag_line(fs[j], w), flag_lines(fs, w)),
    decreases fs.len(),
{
    let d = fs.drop_last();
    assert(d.len() == fs.len() - 1);
    if i < d.len() {
        assert(d[i] == fs[i]);
    }
    if j == fs.len() - 1 {
        lemma_flag_line_in_lines(d, w, i);
        lemma_occurs_self(flag_line(fs[j], w));
        lemma_before_concat(flag_line(fs[i], w), flag_line(fs[j], w), flag_lines(d, w), flag_line(fs[j], w));
    } else {
        assert(d[j] == fs[j]);
        lemma_flag_lines_in_order(d, w, i, j);
        lemma_before_concat(flag_line(fs[i], w), flag_line(fs[j], w), flag_lines(d, w), flag_line(fs.last(), w));
    }
}

/// Sub command lines come in the order the sub commands were added.
proof fn lemma_command_lines_in_order<A, E>(cmds: Seq<Command<A, E>>, w: nat, i: int, j: int)
    requires
        0 <= i < j < cmds.len(),
    ensures
        occurs_before(command_line(cmds[i], w), command_line(cmds[j], w), command_lines(cmds, w)),
    decreases cmds.len(),
{
    let d = cmds.drop_last();
    if i < d.len() {
        assert(d[i] == cmds[i]);
    }
    if j == cmds.len() - 1 {
        lemma_command_line_in_lines(d, w, i);
        lemma_occurs_self(command_line(cmds[j], w));
        lemma_before_concat(command_line(cmds[i], w), command_line(cmds[j], w), command_lines(d, w), command_line(cmds[j], w));
    } else {
        assert(d[j] == cmds[j]);
        lemma_command_lines_in_order(d, w, i, j);
        lemma_before_concat(command_line(cmds[i], w), command_line(cmds[j], w), command_lines(d, w), command_line(cmds.last(), w));
    }
}

/// A text ordered in a part of the help text is ordered in the help text.
proof fn lemma_before_in_flag_help<A, E>(c: Command<A, E>, x: Seq<char>, y: Seq<char>)
    requires
        occurs_before(x, y, flag_help(c)),
    ensures
        occurs_before(x, y, help_text_of(c)),
{
    let t = help_text_of(c);
    let head = t.subrange(0, t.len() - command_help(c).len() - flag_help(c).len());
    assert(t =~= (head + flag_help(c)) + command_help(c));
    lemma_before_concat(x, y, head, flag_help(c));
    lemma_before_concat(x, y, head + flag_help(c), command_help(c));
}

/// The help text lists the flags in the order they were added, each on a
/// line of its own: the tab, its entry padded with spaces to the column, and
/// ` : ` and its description when it has one.
#[verifier::rlimit(40)]
pub proof fn law_help_flag_lines_in_order<A, E>(c: Command<A, E>, i: int, j: int)
    requires
        0 <= i < j < c.flag_list().len(),
    ensures
        occurs_before(
            flag_line(c.flag_list()[i], flag_width(c.flag_list())),
            flag_line(c.flag_list()[j], flag_width(c.flag_list())),
            help_text_of(c),
        ),
{
    let fs = c.flags->0@;
    let w = flag_width(fs);
    let lines = flag_lines(fs, w);
    let x = flag_line(fs[i], w);
    let y = flag_line(fs[j], w);
    lemma_flag_lines_in_order(fs, w, i, j);
    let rest = "\t"@ + help_flag_entry() + spaces((w - byte_len(help_flag_entry())) as nat)
        + " : Show help\n"@;
    assert(flag_help(c) =~= ("Flags:\n"@ + lines) + rest);
    lemma_before_concat(x, y, "Flags:\n"@, lines);
    lemma_before_concat(x, y, "Flags:\n"@ + lines, rest);
    lemma_before_in_flag_help(c, x, y);
}

/// A flag's line: a tab, its entry, spaces up to the column, then ` : ` and
/// its description, or the end of the line when it has none.
pub proof fn law_flag_line_layout(f: Flag, w: nat)
    ensures
        f.description is Some ==> flag_line(f, w) == "\t"@ + flag_entry(f) + spaces(
            (w - byte_len(flag_entry(f))) as nat,
        ) + " : "@ + f.description->0@ + "\n"@,
        f.description is None ==> flag_line(f, w) == "\t"@ + flag_entry(f) + "\n"@,
{
}

/// The help text lists the sub commands in the order they were added, after
/// the flags: the `Commands:` section follows the `Flags:` section directly.
#[verifier::rlimit(40)]
pub proof fn law_help_command_lines_in_order<A, E>(c: Command<A, E>, i: int, j: int)
    requires
        0 <= i < j < c.subcommands().len(),
    ensures
        occurs_before(
            command_line(c.subcommands()[i], command_width(c.subcommands())),
            command_line(c.subcommands()[j], command_width(c.subcommands())),
            help_text_of(c),
        ),
        occurs_in(flag_help(c) + "\nCommands:\n"@, help_text_of(c)),
{
    let cmds = c.commands->0@;
    let w = command_width(cmds);
    let lines = command_lines(cmds, w);
    let x = command_line(cmds[i], w);
    let y = command_line(cmds[j], w);
    let t = help_text_of(c);
    lemma_command_lines_in_order(cmds, w, i, j);
    let head = t.subrange(0, t.len() - command_help(c).len());
    assert(t =~= head + ("\nCommands:\n"@ + lines));
    lemma_before_concat(x, y, "\nCommands:\n"@, lines);
    lemma_before_concat(x, y, head, "\nCommands:\n"@ + lines);
    let pre = t.subrange(0, t.len() - command_help(c).len() - flag_help(c).len());
    let z = flag_help(c) + "\nCommands:\n"@;
    assert(t =~= pre + z + lines);
    lemma_occurs_self(z);
    lemma_occurs_concat(z, pre, z);
    lemma_occurs_concat(z, pre + z, lines);
}

/// A sub command's line: a tab, its label, spaces up to one byte past the
/// column, then `: ` and its description (nothing when it has none).
pub proof fn law_command_line_layout<A, E>(c: Command<A, E>, w: nat)
    ensures
        command_line(c, w) == "\t"@ + command_label(c) + spaces(
            (w - byte_len(command_label(c))) as nat + 1,
        ) + ": "@ + (if c.description is Some { c.description->0@ } else { Seq::empty() }) + "\n"@,
{
    let n = (w - byte_len(command_label(c))) as nat;
    reveal_strlit(" ");
    assert(" "@ + spaces(n) =~= spaces(n + 1));
    assert(command_line(c, w) =~= "\t"@ + command_label(c) + spaces(n + 1) + ": "@ + description_text(c) + "\n"@);
}

} // verus!
