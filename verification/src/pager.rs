//! Which program shows long output page by page.

use crate::process::{Invocation, InvocationView, Program, ProgramView};
use crate::text::text_of;
use vstd::prelude::*;

verus! {

/// The options given to `less`: leave at once where the text fits the
/// screen, ignore case when searching, show control characters as they
/// are, and leave the screen as it is.
pub const LESS_OPTIONS: &'static str = "-FIrX";

/// The pager that is started, from whether the output is a terminal and
/// from the paths at which `less` and `more` were found: none where the
/// output is no terminal; `less` with its options before `more`.
pub open spec fn pager(terminal: bool, less: Option<Seq<char>>, more: Option<Seq<char>>) -> Option<
    InvocationView,
> {
    if !terminal {
        None
    } else if let Some(path) = less {
        Some(
            InvocationView {
                program: ProgramView::Named(path),
                args: seq![LESS_OPTIONS@],
                envs: Seq::empty(),
            },
        )
    } else if let Some(path) = more {
        Some(
            InvocationView {
                program: ProgramView::Named(path),
                args: Seq::empty(),
                envs: Seq::empty(),
            },
        )
    } else {
        None
    }
}

/// Chooses the pager.
pub fn detect(terminal: bool, less: Option<String>, more: Option<String>) -> (result: Option<
    Invocation,
>)
    ensures
        match pager(
            terminal,
            match less {
                Some(path) => Some(path@),
                None => None,
            },
            match more {
                Some(path) => Some(path@),
                None => None,
            },
        ) {
            Some(invocation) => result is Some && result->0@ == invocation,
            None => result is None,
        },
{
    if !terminal {
        return None;
    }
    let envs: Vec<(String, String)> = Vec::new();
    let mut args: Vec<String> = Vec::new();
    if let Some(path) = less {
        args.push(text_of(LESS_OPTIONS));
        let invocation = Invocation { program: Program::Named(path), args, envs };
        assert(invocation@.args =~= seq![LESS_OPTIONS@]);
        assert(invocation@.envs =~= Seq::empty());
        return Some(invocation);
    }
    if let Some(path) = more {
        let invocation = Invocation { program: Program::Named(path), args, envs };
        assert(invocation@.args =~= Seq::empty());
        assert(invocation@.envs =~= Seq::empty());
        return Some(invocation);
    }
    None
}

} // verus!
