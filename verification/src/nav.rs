//! The navigation loop's state machine.
//!
//! The loop holds one current path. On each visit the surrounding shell
//! lists and orders the level, shows it, and obtains the user's choice;
//! [`nav_step`] then decides the next state. An empty listing and every
//! quit signal terminate the walk; choosing a directory descends into it;
//! choosing a file keeps the current path, and the loop visits it again.
//! `Terminated` is absorbing: the shell stops stepping once it is reached.

use vstd::prelude::*;
use vstd::string::StringExecFns;
use crate::listing::{Entry, EntryKind};

verus! {

/// State of the navigation loop: browsing one directory, or done.
#[derive(Debug)]
pub enum NavState {
    Browsing(String),
    Terminated,
}

/// What the selection prompt came back with: a chosen entry index, or any
/// of the quit signals — the quit affordance, a cancelled prompt, and a
/// failed read of the input are all handled alike.
#[derive(Clone, Copy, Debug, PartialEq, Eq, Structural)]
pub enum Selection {
    Chosen(usize),
    Quit,
}

/// The path of a child inside a directory: the base path, a separator,
/// the child's name.
pub open spec fn joined_path(base: Seq<char>, name: Seq<char>) -> Seq<char> {
    base + seq!['/'] + name
}

/// Appends a child's name to a directory path.
pub fn join_path(base: &str, name: &str) -> (r: String)
    ensures
        r@ == joined_path(base@, name@),
{
    proof {
        reveal_strlit("/");
        assert("/"@ =~= seq!['/']);
    }
    let mut out = String::from_str(base);
    out.append("/");
    out.append(name);
    proof {
        assert(out@ =~= joined_path(base@, name@));
    }
    out
}

/// One step of the navigation loop, taken in state `Browsing` at `path`
/// once the level's entries are listed and ordered. An empty listing
/// terminates the walk, and so does a quit signal. Choosing a directory
/// descends into it; choosing a file keeps the current path unchanged.
pub fn nav_step(path: &str, entries: &Vec<Entry>, sel: Selection) -> (next: NavState)
    requires
        sel matches Selection::Chosen(i) ==> i < entries@.len(),
    ensures
        entries@.len() == 0 ==> next is Terminated,
        entries@.len() > 0 ==> match sel {
            Selection::Quit => next is Terminated,
            Selection::Chosen(i) => match entries@[i as int].kind {
                EntryKind::Directory => next matches NavState::Browsing(p) && p@ == joined_path(
                    path@,
                    entries@[i as int].name@,
                ),
                EntryKind::File => next matches NavState::Browsing(p) && p@ == path@,
            },
        },
{
    if entries.len() == 0 {
        return NavState::Terminated;
    }
    match sel {
        Selection::Quit => NavState::Terminated,
        Selection::Chosen(i) => {
            let e = &entries[i];
            match e.kind {
                EntryKind::Directory => NavState::Browsing(join_path(path, e.name.as_str())),
                EntryKind::File => NavState::Browsing(String::from_str(path)),
            }
        },
    }
}

} // verus!
