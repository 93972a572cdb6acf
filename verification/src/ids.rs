//! Catalog ids of the four loadout slots, each known or not.
use crate::text::same_text;
use vstd::prelude::*;

verus! {

/// An optional text as a mathematical value.
pub open spec fn option_text(text: Option<String>) -> Option<Seq<char>> {
    match text {
        Some(text) => Some(text@),
        None => None,
    }
}

/// The ids of slots as mathematical values.
pub open spec fn id_texts(ids: Seq<Option<String>>) -> Seq<Option<Seq<char>>> {
    ids.map_values(|id: Option<String>| option_text(id))
}

/// How many of the ids are known.
pub open spec fn known_count(ids: Seq<Option<Seq<char>>>) -> nat
    decreases ids.len(),
{
    if ids.len() == 0 {
        0
    } else {
        known_count(ids.drop_last()) + (if ids.last() is Some {
            1nat
        } else {
            0nat
        })
    }
}

/// A copy of an optional text.
pub fn copy_of(text: &Option<String>) -> (r: Option<String>)
    ensures
        option_text(r) == option_text(*text),
{
    match text {
        Some(text) => Some(text.clone()),
        None => None,
    }
}

/// A copy of the ids of slots.
pub fn copy_ids(ids: &Vec<Option<String>>) -> (r: Vec<Option<String>>)
    ensures
        id_texts(r@) == id_texts(ids@),
{
    let mut out: Vec<Option<String>> = Vec::new();
    let mut i: usize = 0;
    while i < ids.len()
        invariant
            i <= ids@.len(),
            id_texts(out@) == id_texts(ids@).take(i as int),
        decreases ids@.len() - i,
    {
        let ghost before = id_texts(out@);
        out.push(copy_of(&ids[i]));
        assert(id_texts(out@) == before.push(option_text(ids@[i as int])));
        i = i + 1;
    }
    out
}

/// The four ids as a list.
pub fn list_of(ids: &[Option<String>; 4]) -> (r: Vec<Option<String>>)
    ensures
        id_texts(r@) == id_texts(ids@),
{
    let mut out: Vec<Option<String>> = Vec::new();
    let mut i: usize = 0;
    while i < 4
        invariant
            i <= 4,
            id_texts(out@) == id_texts(ids@).take(i as int),
        decreases 4 - i,
    {
        let ghost before = id_texts(out@);
        out.push(copy_of(&ids[i]));
        assert(id_texts(out@) == before.push(option_text(ids@[i as int])));
        i = i + 1;
    }
    out
}

/// How many of the ids are known.
pub fn count_known(ids: &Vec<Option<String>>) -> (r: usize)
    ensures
        r == known_count(id_texts(ids@)),
        r <= ids@.len(),
{
    let ghost texts = id_texts(ids@);
    let mut count: usize = 0;
    let mut i: usize = 0;
    assert(texts.take(0) == Seq::<Option<Seq<char>>>::empty());
    while i < ids.len()
        invariant
            i <= ids@.len(),
            texts == id_texts(ids@),
            count == known_count(texts.take(i as int)),
            count <= i,
        decreases ids@.len() - i,
    {
        assert(texts.take(i + 1).drop_last() == texts.take(i as int));
        assert(texts.take(i + 1).last() == option_text(ids@[i as int]));
        if ids[i].is_some() {
            count = count + 1;
        }
        i = i + 1;
    }
    assert(texts.take(texts.len() as int) == texts);
    count
}

/// Some slot holds the id.
pub open spec fn holds_id(ids: Seq<Option<Seq<char>>>, id: Seq<char>) -> bool {
    ids.contains(Some(id))
}

/// Whether some slot holds the id.
pub fn contains_id(ids: &Vec<Option<String>>, id: &str) -> (r: bool)
    ensures
        r == holds_id(id_texts(ids@), id@),
{
    let ghost texts = id_texts(ids@);
    let mut i: usize = 0;
    while i < ids.len()
        invariant
            i <= ids@.len(),
            texts == id_texts(ids@),
            forall|k: int| 0 <= k < i ==> #[trigger] texts[k] != Some(id@),
        decreases ids@.len() - i,
    {
        if let Some(known) = &ids[i] {
            if same_text(known.as_str(), id) {
                assert(texts[i as int] == Some(id@));
                return true;
            }
        }
        assert(texts[i as int] == option_text(ids@[i as int]));
        i = i + 1;
    }
    false
}

} // verus!
