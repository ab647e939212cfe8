//! The commands as an editor lists them in its menu.
use vstd::prelude::*;

use crate::argv;
use crate::argv::{help_key_of, menu_description};
use crate::prompts;
use crate::prompts::without_slashes_of;
use crate::text;
use crate::text::copy_text;

verus! {

/// The entry of the catalogue that describes a command, by the command's name.
pub open spec fn entry_of(name: Seq<char>) -> Seq<char> {
    argv::help_key(prompts::without_slashes(name))
}

/// The description of a command, given what the catalogue has under its entry: empty where
/// it has none and gives the key back.
pub open spec fn description(name: Seq<char>, wording: Seq<char>) -> Seq<char> {
    if wording == entry_of(name) {
        Seq::empty()
    } else {
        text::trim(argv::described(text::trim(wording)))
    }
}

/// The entries of the catalogue that describe commands.
pub fn acp_command_keys(names: &Vec<String>) -> (r: Vec<String>)
    ensures
        text::texts(r@) == Seq::new(names@.len(), |i: int| entry_of(names@[i]@)),
{
    let mut r: Vec<String> = Vec::new();
    let mut i: usize = 0;
    while i < names.len()
        invariant
            i <= names.len(),
            r.len() == i,
            forall|k: int| 0 <= k < i ==> (#[trigger] r@[k])@ == entry_of(names@[k]@),
        decreases names.len() - i,
    {
        r.push(help_key_of(&without_slashes_of(&names[i])));
        i = i + 1;
    }
    assert(text::texts(r@) =~= Seq::new(names@.len(), |i: int| entry_of(names@[i]@)));
    r
}

/// The commands of the menu with their descriptions, given what the catalogue has for each.
pub fn acp_command_catalog(names: &Vec<String>, wordings: &Vec<String>) -> (r: Vec<
    (String, String),
>)
    requires
        wordings.len() == names.len(),
    ensures
        r.len() == names.len(),
        forall|i: int|
            0 <= i < r.len() ==> (#[trigger] r@[i]).0@ == names@[i]@ && r@[i].1@ == description(
                names@[i]@,
                wordings@[i]@,
            ),
{
    let keys = acp_command_keys(names);
    assert(keys.len() == text::texts(keys@).len());
    let mut r: Vec<(String, String)> = Vec::new();
    let mut i: usize = 0;
    while i < names.len()
        invariant
            i <= names.len(),
            keys.len() == names.len(),
            wordings.len() == names.len(),
            text::texts(keys@) == Seq::new(names@.len(), |k: int| entry_of(names@[k]@)),
            r.len() == i,
            forall|k: int|
                0 <= k < i ==> (#[trigger] r@[k]).0@ == names@[k]@ && r@[k].1@ == description(
                    names@[k]@,
                    wordings@[k]@,
                ),
        decreases names.len() - i,
    {
        assert(text::texts(keys@)[i as int] == keys@[i as int]@);
        r.push((copy_text(&names[i]), menu_description(&keys[i], &wordings[i])));
        i = i + 1;
    }
    r
}

/// A command that the catalogue does not know is listed without a description.
pub proof fn unknown_commands_are_not_described(name: Seq<char>)
    ensures
        description(name, entry_of(name)) == Seq::<char>::empty(),
{
}

} // verus!
