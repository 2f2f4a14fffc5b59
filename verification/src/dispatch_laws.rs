//! What the command line means, stated character by character: help
//! requests, names and aliases, `--name=value` arguments, and the first step
//! of a dispatch.
use vstd::prelude::*;

use crate::command::{normalize, normalize_arg, resolve, selected, wants_help, Command};

verus! {

/// Help is asked for exactly when some argument, at any position, is `-h`
/// or `--help`.
pub proof fn law_help_requested_anywhere(args: Seq<Seq<char>>)
    ensures
        wants_help(args) <==> exists|i: int|
            0 <= i < args.len() && (#[trigger] args[i] == "-h"@ || args[i] == "--help"@),
{
    if exists|i: int| 0 <= i < args.len() && (#[trigger] args[i] == "-h"@ || args[i] == "--help"@) {
        let i = choose|i: int| 0 <= i < args.len() && (#[trigger] args[i] == "-h"@ || args[i] == "--help"@);
        if args[i] == "-h"@ {
            assert(args.contains("-h"@));
        } else {
            assert(args.contains("--help"@));
        }
    }
}

/// A command answers to a word exactly when the word is its name or one of
/// its aliases, at any position of its alias list.
pub proof fn law_answers_to_name_or_any_alias<A, E>(c: Command<A, E>, w: Seq<char>)
    ensures
        c.answers_to(w) <==> (c.name@ == w || (c.alias is Some && exists|k: int|
            0 <= k < c.alias->0@.len() && (#[trigger] c.alias->0@[k])@ == w)),
{
    if c.alias is Some {
        let v = c.alias->0@;
        let sv = crate::flag::opt_strings_view(c.alias);
        if exists|k: int| 0 <= k < v.len() && (#[trigger] v[k])@ == w {
            let k = choose|k: int| 0 <= k < v.len() && (#[trigger] v[k])@ == w;
            assert(sv[k] == w);
        }
        if sv.contains(w) {
            let k = choose|k: int| 0 <= k < sv.len() && sv[k] == w;
            assert(v[k]@ == w);
        }
    }
}

/// The sub command selected for a word is the first, in the order they
/// were added, that answers to it; none is selected when none answers.
pub proof fn law_selected_is_first_answering<A, E>(cmds: Seq<Command<A, E>>, w: Seq<char>)
    ensures
        selected(cmds, w) is None <==> forall|i: int| 0 <= i < cmds.len() ==> !(#[trigger] cmds[i]).answers_to(w),
        selected(cmds, w) matches Some(i) ==> {
            &&& 0 <= i < cmds.len()
            &&& cmds[i].answers_to(w)
            &&& forall|j: int| 0 <= j < i ==> !(#[trigger] cmds[j]).answers_to(w)
        },
{
    if exists|i: int| 0 <= i < cmds.len() && (#[trigger] cmds[i]).answers_to(w) {
        let i = choose|i: int| 0 <= i < cmds.len() && (#[trigger] cmds[i]).answers_to(w);
        let m = lemma_first_answering(cmds, w, i);
        assert(crate::command::is_first_match(cmds, w, m));
    }
}

/// If some command answers, a first one does.
proof fn lemma_first_answering<A, E>(cmds: Seq<Command<A, E>>, w: Seq<char>, k: int) -> (m: int)
    requires
        0 <= k < cmds.len(),
        cmds[k].answers_to(w),
    ensures
        crate::command::is_first_match(cmds, w, m),
    decreases k,
{
    if exists|j: int| 0 <= j < k && (#[trigger] cmds[j]).answers_to(w) {
        let j = choose|j: int| 0 <= j < k && (#[trigger] cmds[j]).answers_to(w);
        lemma_first_answering(cmds, w, j)
    } else {
        k
    }
}

/// An argument that starts with `-` and holds `=` is split at its first `=`
/// into the part before and the part after, whatever else it holds.
pub proof fn law_flag_value_split_at_first_equals(s: Seq<char>, i: int)
    requires
        s.len() > 0,
        s[0] == '-',
        0 <= i < s.len(),
        s[i] == '=',
        forall|j: int| 0 <= j < i ==> s[j] != '=',
    ensures
        normalize_arg(s) == seq![s.subrange(0, i), s.subrange(i + 1, s.len() as int)],
{
    assert(s.contains('='));
    let m = choose|m: int| crate::command::is_first_index(s, '=', m);
    assert(crate::command::is_first_index(s, '=', i));
    if m < i {
        assert(s[m] != '=');
    }
    if i < m {
        assert(s[i] != '=');
    }
    assert(s.take(i) =~= s.subrange(0, i));
    assert(s.skip(i + 1) =~= s.subrange(i + 1, s.len() as int));
}

/// Any other argument, one that does not start with `-` or holds no `=`, is
/// kept whole.
pub proof fn law_other_argument_kept(s: Seq<char>)
    requires
        s.len() == 0 || s[0] != '-' || forall|j: int| 0 <= j < s.len() ==> s[j] != '=',
    ensures
        normalize_arg(s) == seq![s],
{
    if s.contains('=') {
        let j = choose|j: int| 0 <= j < s.len() && s[j] == '=';
        assert(s[j] == '=');
    }
}

/// A single argument is normalized by itself.
pub proof fn law_normalize_single(s: Seq<char>)
    ensures
        normalize(seq![s]) == normalize_arg(s),
{
    assert(seq![s].drop_last() =~= Seq::<Seq<char>>::empty());
    assert(normalize(Seq::<Seq<char>>::empty()) + normalize_arg(s) =~= normalize_arg(s));
}

/// The first step of a dispatch: when the first argument (once normalized)
/// is answered to by a sub command, the line goes to the first such sub
/// command with the rest of the arguments; otherwise it stays at the command,
/// with all the normalized arguments.
pub proof fn law_dispatch_first_step<A, E>(c: Command<A, E>, raw: Seq<Seq<char>>)
    ensures
        ({
            let args = normalize(raw);
            let cmds = c.subcommands();
            if args.len() > 0 && exists|i: int| 0 <= i < cmds.len() && (#[trigger] cmds[i]).answers_to(args[0]) {
                exists|i: int| {
                    &&& 0 <= i < cmds.len()
                    &&& #[trigger] cmds[i].answers_to(args[0])
                    &&& (forall|j: int| 0 <= j < i ==> !(#[trigger] cmds[j]).answers_to(args[0]))
                    &&& resolve(c, raw).1 == seq![i as usize] + resolve(cmds[i], args.drop_first()).1
                    &&& resolve(c, raw).0 == resolve(cmds[i], args.drop_first()).0
                    &&& resolve(c, raw).2 == resolve(cmds[i], args.drop_first()).2
                }
            } else {
                resolve(c, raw) == (c, Seq::<usize>::empty(), args)
            }
        }),
{
    let args = normalize(raw);
    let cmds = c.subcommands();
    if args.len() > 0 {
        law_selected_is_first_answering(cmds, args[0]);
        if exists|i: int| 0 <= i < cmds.len() && (#[trigger] cmds[i]).answers_to(args[0]) {
            let i = selected(cmds, args[0])->0;
            assert(cmds[i].answers_to(args[0]));
        }
    }
}

} // verus!
