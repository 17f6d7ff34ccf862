//! Comparing and joining text.

use vstd::prelude::*;
use vstd::string::StringExecFns;

verus! {

/// `str`'s `==`: whether two string slices hold the same text.
#[verifier::external_body]
pub(crate) fn same_text(a: &str, b: &str) -> (same: bool)
    ensures
        same == (a@ == b@),
{
    a == b
}

/// The fields one after another, with `separator` between neighbours.
pub open spec fn joined(fields: Seq<Seq<char>>, separator: Seq<char>) -> Seq<char>
    decreases fields.len(),
{
    if fields.len() == 0 {
        Seq::empty()
    } else if fields.len() == 1 {
        fields[0]
    } else {
        joined(fields.drop_last(), separator) + separator + fields.last()
    }
}

/// The text of each string.
pub open spec fn names(strings: Seq<String>) -> Seq<Seq<char>> {
    Seq::new(strings.len(), |i: int| strings[i]@)
}

/// The text of each cell; an empty cell has no text.
pub open spec fn cell_texts(cells: Seq<Option<String>>) -> Seq<Seq<char>> {
    Seq::new(
        cells.len(),
        |i: int|
            match cells[i] {
                Some(text) => text@,
                None => Seq::empty(),
            },
    )
}

/// Joins `fields` with `separator` between neighbours.
pub fn join(fields: &Vec<String>, separator: &str) -> (text: String)
    ensures
        text@ == joined(names(fields@), separator@),
{
    let mut text = String::new();
    let ghost all = names(fields@);
    let mut i: usize = 0;
    proof {
        assert(all.subrange(0, 0) =~= Seq::<Seq<char>>::empty());
    }
    while i < fields.len()
        invariant
            i <= fields@.len(),
            all == names(fields@),
            text@ == joined(all.subrange(0, i as int), separator@),
        decreases fields@.len() - i,
    {
        proof {
            let next = all.subrange(0, i as int + 1);
            assert(next.drop_last() =~= all.subrange(0, i as int));
            assert(next.last() == fields@[i as int]@);
            assert(Seq::<char>::empty() + fields@[i as int]@ =~= fields@[i as int]@);
        }
        if i > 0 {
            text.append(separator);
        }
        text.append(fields[i].as_str());
        i += 1;
    }
    assert(all.subrange(0, i as int) =~= all);
    text
}

/// Joins the text of `cells` with `separator` between neighbours; an empty
/// cell contributes no text.
pub fn join_cells(cells: &Vec<Option<String>>, separator: &str) -> (text: String)
    ensures
        text@ == joined(cell_texts(cells@), separator@),
{
    let mut text = String::new();
    let ghost all = cell_texts(cells@);
    let mut i: usize = 0;
    proof {
        assert(all.subrange(0, 0) =~= Seq::<Seq<char>>::empty());
    }
    while i < cells.len()
        invariant
            i <= cells@.len(),
            all == cell_texts(cells@),
            text@ == joined(all.subrange(0, i as int), separator@),
        decreases cells@.len() - i,
    {
        proof {
            let next = all.subrange(0, i as int + 1);
            assert(next.drop_last() =~= all.subrange(0, i as int));
            assert(next.last() == all[i as int]);
            assert(Seq::<char>::empty() + all[i as int] =~= all[i as int]);
            assert(text@ + separator@ + Seq::<char>::empty() =~= text@ + separator@);
        }
        if i > 0 {
            text.append(separator);
        }
        match &cells[i] {
            Some(cell) => {
                text.append(cell.as_str());
            },
            None => {},
        }
        i += 1;
    }
    assert(all.subrange(0, i as int) =~= all);
    text
}

} // verus!
