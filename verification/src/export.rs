//! The tabular dump: a header line of keys, then one line per row of the
//! trailing-aligned table, fields separated by commas and nothing quoted.

use crate::text::{cell_texts, join, join_cells, joined, names};
use vstd::prelude::*;
use vstd::string::StringExecFns;

verus! {

/// One line of the dump: the fields separated by commas, then a line feed.
pub open spec fn csv_line(fields: Seq<Seq<char>>) -> Seq<char> {
    joined(fields, seq![',']) + seq!['\n']
}

/// The lines of the rows, one after another.
pub open spec fn csv_lines(rows: Seq<Seq<Seq<char>>>) -> Seq<char>
    decreases rows.len(),
{
    if rows.len() == 0 {
        Seq::empty()
    } else {
        csv_lines(rows.drop_last()) + csv_line(rows.last())
    }
}

/// The whole dump: the header line, then the line of every row.
pub open spec fn csv_document(header: Seq<Seq<char>>, rows: Seq<Seq<Seq<char>>>) -> Seq<char> {
    csv_line(header) + csv_lines(rows)
}

/// The text of every cell of every row.
pub open spec fn row_texts(rows: Seq<Vec<Option<String>>>) -> Seq<Seq<Seq<char>>> {
    Seq::new(rows.len(), |i: int| cell_texts(rows[i]@))
}

/// The dump of a table whose cells are already rendered as text: an empty
/// cell stays empty between its commas.
pub fn csv_text(header: &Vec<String>, rows: &Vec<Vec<Option<String>>>) -> (text: String)
    ensures
        text@ == csv_document(names(header@), row_texts(rows@)),
{
    proof {
        reveal_strlit(",");
        reveal_strlit("\n");
        assert(","@ =~= seq![',']);
        assert("\n"@ =~= seq!['\n']);
    }
    let mut text = join(header, ",");
    text.append("\n");
    let ghost all = row_texts(rows@);
    let mut i: usize = 0;
    proof {
        assert(all.subrange(0, 0) =~= Seq::<Seq<Seq<char>>>::empty());
        assert(text@ + Seq::<char>::empty() =~= text@);
    }
    while i < rows.len()
        invariant
            i <= rows@.len(),
            all == row_texts(rows@),
            ","@ == seq![','],
            "\n"@ == seq!['\n'],
            text@ == csv_line(names(header@)) + csv_lines(all.subrange(0, i as int)),
        decreases rows@.len() - i,
    {
        proof {
            let next = all.subrange(0, i as int + 1);
            assert(next.drop_last() =~= all.subrange(0, i as int));
            assert(next.last() == cell_texts(rows@[i as int]@));
        }
        let line = join_cells(&rows[i], ",");
        let ghost before = text@;
        text.append(line.as_str());
        text.append("\n");
        proof {
            assert(text@ =~= before + csv_line(cell_texts(rows@[i as int]@)));
            assert(text@ =~= csv_line(names(header@)) + csv_lines(all.subrange(0, i as int + 1)));
        }
        i += 1;
    }
    assert(all.subrange(0, i as int) =~= all);
    text
}

} // verus!
