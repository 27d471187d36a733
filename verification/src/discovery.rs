//! From the entries of the socket directory to the names of the displays.
//!
//! Every display server keeps a socket named `X` and its number; the display
//! is addressed as `:` and that number.

use vstd::prelude::*;
use vstd::string::{StrSliceExecFns, StringExecFns};
use crate::event::{ErrorView, SyncError};

verus! {

/// The character of a display's name that stands for `c` of its socket's
/// name.
pub open spec fn name_char(c: char) -> char {
    if c == 'X' {
        ':'
    } else {
        c
    }
}

/// The name of the display whose socket is named `socket`: every `X`
/// becomes a colon, everything else stays.
pub open spec fn display_name_of(socket: Seq<char>) -> Seq<char> {
    Seq::new(socket.len(), |i: int| name_char(socket[i]))
}

/// The names of the displays whose sockets are `sockets`, in the same
/// order.
pub open spec fn display_names_of(sockets: Seq<Seq<char>>) -> Seq<Seq<char>> {
    Seq::new(sockets.len(), |i: int| display_name_of(sockets[i]))
}

/// The name of the display whose socket is named `socket`.
pub fn display_name(socket: &String) -> (name: String)
    ensures
        name@ == display_name_of(socket@),
{
    let text = socket.as_str();
    let n = text.unicode_len();
    let mut name = String::new();
    let mut i: usize = 0;
    proof {
        reveal_strlit(":");
        assert(name@ =~= display_name_of(text@.take(0)));
    }
    while i < n
        invariant
            i <= n,
            n == text@.len(),
            ":"@ == seq![':'],
            name@ == display_name_of(text@.take(i as int)),
        decreases n - i,
    {
        let ghost before = name@;
        let c = text.get_char(i);
        if c == 'X' {
            name.append(":");
        } else {
            name.append(text.substring_char(i, i + 1));
        }
        proof {
            assert(text@.subrange(i as int, i + 1) =~= seq![text@[i as int]]);
            assert(name@ =~= before.push(name_char(text@[i as int])));
            assert(name@ =~= display_name_of(text@.take(i + 1)));
        }
        i += 1;
    }
    proof {
        assert(text@.take(i as int) =~= text@);
    }
    name
}

/// The displays whose sockets are named `sockets`, in the same order. A
/// start without any display is an error.
pub fn get_displays(sockets: &Vec<String>) -> (out: Result<Vec<String>, SyncError>)
    ensures
        out.is_ok() == (sockets@.len() > 0),
        match out {
            Ok(names) => names.deep_view() == display_names_of(sockets.deep_view()),
            Err(e) => e@ == ErrorView::Discovery,
        },
{
    if sockets.len() == 0 {
        return Err(SyncError::Discovery);
    }
    let mut names: Vec<String> = Vec::new();
    let mut i: usize = 0;
    while i < sockets.len()
        invariant
            i <= sockets.len(),
            names.deep_view() =~= display_names_of(sockets.deep_view()).take(i as int),
        decreases sockets.len() - i,
    {
        let ghost before = names.deep_view();
        let name = display_name(&sockets[i]);
        names.push(name);
        assert(names.deep_view() =~= before.push(name@));
        i += 1;
    }
    assert(display_names_of(sockets.deep_view()).take(i as int) =~= display_names_of(
        sockets.deep_view(),
    ));
    Ok(names)
}

} // verus!
