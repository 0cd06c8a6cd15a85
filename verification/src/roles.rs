//! Sorting recipients into roles by the lists of display names.

use crate::fields::{contact_view, contacts, members, names_of};
use crate::text::{chars_of, same_chars, split, split_chars, trim, trim_chars, views};
use vstd::prelude::*;

verus! {

/// The display names that a list names: its pieces between semicolons, each
/// without the white space around it.
pub fn role_names(list: &str) -> (names: Vec<Vec<char>>)
    ensures
        views(names@) == names_of(list@),
{
    let chars = chars_of(list);
    let pieces = split_chars(chars.as_slice(), ';');
    let mut names: Vec<Vec<char>> = Vec::new();
    let mut k: usize = 0;
    while k < pieces.len()
        invariant
            k <= pieces.len(),
            views(pieces@) == split(list@, ';'),
            names@.len() == k,
            forall|i: int| 0 <= i < k ==> names@[i]@ == trim(#[trigger] pieces@[i]@),
        decreases pieces.len() - k,
    {
        let name = trim_chars(pieces[k].as_slice());
        names.push(name);
        k += 1;
    }
    proof {
        assert forall|i: int| 0 <= i < names@.len() implies views(names@)[i] == names_of(
            list@,
        )[i] by {
            assert(views(pieces@)[i] == pieces@[i]@);
        }
        assert(views(names@) =~= names_of(list@));
    }
    names
}

/// Whether `name` is one of `names`.
pub fn is_named(names: &Vec<Vec<char>>, name: &[char]) -> (found: bool)
    ensures
        found == views(names@).contains(name@),
{
    let mut k: usize = 0;
    while k < names.len()
        invariant
            k <= names.len(),
            forall|i: int| 0 <= i < k ==> views(names@)[i] != name@,
        decreases names.len() - k,
    {
        if same_chars(names[k].as_slice(), name) {
            assert(views(names@)[k as int] == name@);
            return true;
        }
        assert(views(names@)[k as int] == names@[k as int]@);
        k += 1;
    }
    false
}

/// Those of `all` whose display name stands in `list`, in the order of `all`.
pub fn select_members(list: &str, all: &Vec<(String, String)>) -> (chosen: Vec<(String, String)>)
    ensures
        contacts(chosen@) == members(list@, contacts(all@)),
{
    let names = role_names(list);
    let mut chosen: Vec<(String, String)> = Vec::new();
    let mut k: usize = 0;
    assert(contacts(all@).take(0) == Seq::<(Seq<char>, Seq<char>)>::empty());
    proof {
        reveal(Seq::filter);
    }
    assert(contacts(chosen@) == members(list@, contacts(all@).take(0)));
    while k < all.len()
        invariant
            k <= all.len(),
            views(names@) == names_of(list@),
            contacts(chosen@) == members(list@, contacts(all@).take(k as int)),
        decreases all.len() - k,
    {
        let pair = &all[k];
        let name = chars_of(pair.0.as_str());
        let ghost before = contacts(all@).take(k as int);
        let ghost contact = contact_view(*pair);
        proof {
            assert(contacts(all@).take(k + 1) == before.push(contact));
            before.lemma_filter_push(
                contact,
                |c: (Seq<char>, Seq<char>)| names_of(list@).contains(c.0),
            );
        }
        if is_named(&names, name.as_slice()) {
            let ghost old_chosen = chosen@;
            chosen.push((pair.0.clone(), pair.1.clone()));
            assert(contacts(chosen@) == contacts(old_chosen).push(contact));
        }
        k += 1;
    }
    assert(contacts(all@).take(all.len() as int) == contacts(all@));
    chosen
}

} // verus!
