//! What an action gets when it runs.
use vstd::prelude::*;

use crate::command::Command;
use crate::flag::{opt_strings_view, strings_view, Flag};
use crate::help::{can_show_help, help_text_of};

verus! {

/// The context an action runs in: the arguments it got, the flags and help
/// text of its command, and the data the application passes along.
pub struct Context<E> {
    /// Command line arguments
    pub args: Vec<String>,
    /// Flags of the command
    pub flags: Option<Vec<Flag>>,
    /// Help text of the command
    pub help_text: String,
    /// Data passed to the action
    pub extensions: E,
}

/// The two flags have the same name, description, kind and aliases.
pub open spec fn same_flag(a: Flag, b: Flag) -> bool {
    &&& a.name@ == b.name@
    &&& a.description == b.description
    &&& a.flag_type == b.flag_type
    &&& a.alias is Some <==> b.alias is Some
    &&& opt_strings_view(a.alias) == opt_strings_view(b.alias)
}

/// The two optional flag lists are both absent, or both present with the same flags in order.
pub open spec fn same_flags(a: Option<Vec<Flag>>, b: Option<Vec<Flag>>) -> bool {
    match (a, b) {
        (Some(x), Some(y)) => x@.len() == y@.len() && forall|i: int|
            0 <= i < x@.len() ==> same_flag(#[trigger] x@[i], y@[i]),
        (None, None) => true,
        _ => false,
    }
}

/// A copy of a list of flags.
fn copy_flags(v: &Option<Vec<Flag>>) -> (r: Option<Vec<Flag>>)
    ensures
        same_flags(r, *v),
{
    match v {
        Some(flags) => {
            let mut out: Vec<Flag> = Vec::new();
            let mut i: usize = 0;
            while i < flags.len()
                invariant
                    i <= flags@.len(),
                    out@.len() == i,
                    forall|j: int| 0 <= j < i ==> same_flag(#[trigger] out@[j], flags@[j]),
                decreases flags@.len() - i,
            {
                let f = flags[i].copy();
                proof {
                    if f.alias is Some {
                        assert(strings_view(f.alias->0@) =~= strings_view(flags@[i as int].alias->0@));
                    }
                }
                out.push(f);
                i = i + 1;
            }
            Some(out)
        },
        None => None,
    }
}

impl<A, E> Command<A, E> {
    /// The context that the command's action gets when it runs with `args`.
    pub fn context<X>(&self, args: Vec<String>, extensions: X) -> (ctx: Context<X>)
        requires
            can_show_help(*self),
        ensures
            ctx.args == args,
            same_flags(ctx.flags, self.flags),
            ctx.help_text@ == help_text_of(*self),
            ctx.extensions == extensions,
    {
        Context {
            args,
            flags: copy_flags(&self.flags),
            help_text: self.help_text(),
            extensions,
        }
    }
}

} // verus!
