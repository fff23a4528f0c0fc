//! Assembling the output lines.
use crate::text::{cells_view, char_string, join, join_cells};
use vstd::prelude::*;
use vstd::string::*;

verus! {

/// The header line: the key names joined by the delimiter, then a tab and `N`.
pub fn header_line(keys: &Vec<String>, delimiter: char) -> (r: String)
    ensures
        r@ == join(cells_view(keys@), delimiter) + seq!['\t', 'N'],
{
    let mut r = join_cells(keys, delimiter);
    let tab = char_string('\t');
    let n = char_string('N');
    r.append(tab.as_str());
    r.append(n.as_str());
    assert(r@ =~= join(cells_view(keys@), delimiter) + seq!['\t', 'N']);
    r
}

/// One group's line: its key cells joined by the delimiter, then a tab and
/// the rendered statistic.
pub fn group_line(key: &Vec<String>, delimiter: char, value: &str) -> (r: String)
    ensures
        r@ == join(cells_view(key@), delimiter) + seq!['\t'] + value@,
{
    let mut r = join_cells(key, delimiter);
    let tab = char_string('\t');
    r.append(tab.as_str());
    r.append(value);
    r
}

} // verus!
