//! Properties that hold across the library's functions.
use vstd::prelude::*;

use crate::command::{
    at_path, command_names, is_first_index, is_flag_with_value, names_distinct, normalize,
    normalize_arg, resolve, selected, Command,
};
use crate::flag::Flag;
use crate::help::{
    command_label, command_width, flag_entry, flag_help, flag_lines, flag_width, help_flag_entry,
};
use crate::text::{
    byte_len, lemma_byte_len_concat, lemma_byte_len_spaces, lemma_max_byte_len, spaces,
};

verus! {

/// The path that a command line resolves to leads, from the command that ran
/// it, to the command it reaches.
pub proof fn law_path_reaches_target<A, E>(c: Command<A, E>, raw: Seq<Seq<char>>)
    ensures
        at_path(c, resolve(c, raw).1) == Some(resolve(c, raw).0),
    decreases c,
{
    let args = normalize(raw);
    if args.len() > 0 && selected(c.subcommands(), args[0]) is Some {
        let i = selected(c.subcommands(), args[0])->0;
        let cmds = c.subcommands();
        let w = args[0];
        assert(exists|k: int| crate::command::is_first_match(cmds, w, k));
        assert(crate::command::is_first_match(cmds, w, i));
        let sub = cmds[i];
        assert(c.commands->0.len() == cmds.len());
        assert(i < usize::MAX);
        law_path_reaches_target(sub, args.drop_first());
        let p = resolve(c, raw).1;
        assert(p == seq![i as usize] + resolve(sub, args.drop_first()).1);
        assert(p.drop_first() =~= resolve(sub, args.drop_first()).1);
    }
}

/// Adding a sub command whose name is new, to a command whose sub commands
/// (at every depth) have distinct names, keeps them distinct, when the new
/// sub command's own sub commands have distinct names.
pub proof fn law_command_keeps_names_distinct<A, E>(c: Command<A, E>, sub: Command<A, E>, r: Command<A, E>)
    requires
        names_distinct(c),
        names_distinct(sub),
        !command_names(c.subcommands()).contains(sub.name@),
        r.subcommands() == c.subcommands().push(sub),
    ensures
        names_distinct(r),
{
    let before = command_names(c.subcommands());
    let after = command_names(r.subcommands());
    assert(after =~= before.push(sub.name@));
    assert forall|i: int, j: int|
        0 <= i < after.len() && 0 <= j < after.len() && i != j implies after[i] != after[j] by {
        if i < before.len() && j < before.len() {
            assert(after[i] == before[i] && after[j] == before[j]);
        } else if i == before.len() {
            assert(before[j] == after[j]);
        } else {
            assert(before[i] == after[i]);
        }
    }
    assert forall|i: int| 0 <= i < r.subcommands().len() implies names_distinct(
        #[trigger] r.subcommands()[i],
    ) by {
        if i < c.subcommands().len() {
            assert(r.subcommands()[i] == c.subcommands()[i]);
        }
    }
}

/// A character that occurs has a first occurrence.
pub proof fn lemma_first_index_exists(s: Seq<char>, c: char, k: int) -> (m: int)
    requires
        0 <= k < s.len(),
        s[k] == c,
    ensures
        is_first_index(s, c, m),
    decreases k,
{
    if exists|j: int| 0 <= j < k && s[j] == c {
        let j = choose|j: int| 0 <= j < k && s[j] == c;
        lemma_first_index_exists(s, c, j)
    } else {
        k
    }
}

/// Splitting `--name=value` loses nothing: the first part holds no `=`, and
/// the parts joined by `=` give back the argument.
pub proof fn law_split_flag_rejoins(s: Seq<char>)
    requires
        is_flag_with_value(s),
    ensures
        normalize_arg(s).len() == 2,
        !normalize_arg(s)[0].contains('='),
        normalize_arg(s)[0] + seq!['='] + normalize_arg(s)[1] == s,
{
    let k = choose|k: int| 0 <= k < s.len() && s[k] == '=';
    let m = lemma_first_index_exists(s, '=', k);
    let i = choose|i: int| is_first_index(s, '=', i);
    if i < m {
        assert(s[i] != '=');
    }
    if m < i {
        assert(s[m] != '=');
    }
    let first = normalize_arg(s)[0];
    assert(first == s.take(i));
    if first.contains('=') {
        let j = choose|j: int| 0 <= j < first.len() && first[j] == '=';
        assert(s[j] == '=');
    }
    assert(s.take(i) + seq!['='] + s.skip(i + 1) =~= s);
}

/// Arguments are normalized one by one: normalizing two lists in a row is
/// normalizing each and putting the results in a row.
pub proof fn law_normalize_concat(a: Seq<Seq<char>>, b: Seq<Seq<char>>)
    ensures
        normalize(a + b) == normalize(a) + normalize(b),
    decreases b.len(),
{
    if b.len() == 0 {
        assert(a + b =~= a);
        assert(normalize(a) + normalize(b) =~= normalize(a));
    } else {
        law_normalize_concat(a, b.drop_last());
        assert((a + b).drop_last() =~= a + b.drop_last());
        assert((a + b).last() == b.last());
        assert(normalize(a + b) =~= normalize(a) + normalize(b));
    }
}

/// In the `Flags:` section, the descriptions line up: every flag entry,
/// padded, is exactly as wide (in bytes) as the column, and so is the help
/// flag's.
pub proof fn law_flag_columns_align(flags: Seq<Flag>, i: int)
    requires
        0 <= i < flags.len(),
    ensures
        byte_len(
            flag_entry(flags[i]) + spaces((flag_width(flags) - byte_len(flag_entry(flags[i]))) as nat),
        ) == flag_width(flags),
        byte_len(
            help_flag_entry() + spaces((flag_width(flags) - byte_len(help_flag_entry())) as nat),
        ) == flag_width(flags),
{
    let entries = flags.map_values(|f: Flag| flag_entry(f));
    lemma_max_byte_len(entries, byte_len(help_flag_entry()));
    assert(entries[i] == flag_entry(flags[i]));
    let w = flag_width(flags);
    let e = flag_entry(flags[i]);
    lemma_byte_len_concat(e, spaces((w - byte_len(e)) as nat));
    lemma_byte_len_spaces((w - byte_len(e)) as nat);
    lemma_byte_len_concat(help_flag_entry(), spaces((w - byte_len(help_flag_entry())) as nat));
    lemma_byte_len_spaces((w - byte_len(help_flag_entry())) as nat);
}

/// In the `Commands:` section, the descriptions line up: every command label,
/// padded, is exactly as wide (in bytes) as the column.
pub proof fn law_command_columns_align<A, E>(cmds: Seq<Command<A, E>>, i: int)
    requires
        0 <= i < cmds.len(),
    ensures
        byte_len(
            command_label(cmds[i]) + spaces(
                (command_width(cmds) - byte_len(command_label(cmds[i]))) as nat,
            ),
        ) == command_width(cmds),
{
    let labels = cmds.map_values(|c: Command<A, E>| command_label(c));
    lemma_max_byte_len(labels, 0);
    assert(labels[i] == command_label(cmds[i]));
    let w = command_width(cmds);
    let l = command_label(cmds[i]);
    lemma_byte_len_concat(l, spaces((w - byte_len(l)) as nat));
    lemma_byte_len_spaces((w - byte_len(l)) as nat);
}

/// A command with no flag list and one with an empty flag list have the same
/// `Flags:` section, which lists the help flag alone.
pub proof fn law_absent_and_empty_flags_agree<A, E>(c1: Command<A, E>, c2: Command<A, E>)
    requires
        c1.flags is None,
        c2.flags matches Some(v) && v@.len() == 0,
    ensures
        flag_help(c1) == flag_help(c2),
        flag_help(c1) == "Flags:\n\t-h, --help : Show help\n"@,
{
    let fs = c2.flags->0@;
    reveal_strlit("-h, --help");
    reveal_strlit("Flags:\n");
    reveal_strlit(" : Show help\n");
    reveal_strlit("\t");
    reveal_strlit("Flags:\n\t-h, --help : Show help\n");
    assert(vstd::utf8::is_ascii_chars(help_flag_entry()));
    vstd::utf8::is_ascii_chars_encode_utf8(help_flag_entry());
    assert(fs.map_values(|f: Flag| flag_entry(f)) =~= Seq::<Seq<char>>::empty());
    assert(flag_width(fs) == byte_len(help_flag_entry()));
    assert(flag_lines(fs, flag_width(fs)) =~= Seq::<char>::empty());
    assert(spaces(0) =~= Seq::<char>::empty());
    assert(flag_help(c1) =~= flag_help(c2));
    assert(flag_help(c1) =~= "Flags:\n\t-h, --help : Show help\n"@);
}

} // verus!
