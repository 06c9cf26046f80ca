//! The names events travel under between the backend and the UI.

use vstd::prelude::*;
use crate::text::{chars_of, replace_char, replace_char_all, string_of};

verus! {

/// The name an event travels under. `player.state` becomes `player:state`: every dot
/// becomes a colon and nothing else changes.
pub fn wire_event_name(event: &str) -> (r: String)
    ensures
        r@ == replace_char(event@, '.', ':'),
{
    let v = chars_of(event);
    let w = replace_char_all(&v, '.', ':');
    string_of(w.as_slice())
}

/// Translated names carry no dot, and a name without a dot travels unchanged.
pub proof fn lemma_wire_names_have_no_dots(event: Seq<char>)
    ensures
        forall|i: int| 0 <= i < event.len() ==> #[trigger] replace_char(event, '.', ':')[i] != '.',
        (forall|i: int| 0 <= i < event.len() ==> event[i] != '.') ==> replace_char(event, '.', ':')
            == event,
{
    if forall|i: int| 0 <= i < event.len() ==> event[i] != '.' {
        assert(replace_char(event, '.', ':') =~= event);
    }
}

} // verus!
