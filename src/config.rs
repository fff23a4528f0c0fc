//! The resolved options of one run, and the summary statistics on offer.
use crate::text::{cells_view, split, split_on, trim, trimmed};
use vstd::prelude::*;
use vstd::string::*;

verus! {

/// The statistic computed over the values of each group.
#[derive(Debug, Clone, Copy, PartialEq, Eq, Structural)]
pub enum Summary {
    Mean,
    N,
    StdDev,
    Var,
}

/// The options that a run works with. The input itself is opened by the
/// program and is not part of them.
pub struct Opt {
    /// Names of the key columns, in order.
    pub keys: Vec<String>,
    /// Name of the value column.
    pub field: String,
    /// Field delimiter of the input, also used between key cells on output.
    pub delimiter: char,
    /// The statistic to compute.
    pub function: Summary,
}

/// `c` equals `l`, or is the upper-case ASCII form of the lower-case ASCII letter `l`.
pub open spec fn folds_to(c: char, l: char) -> bool {
    c == l || ('a' <= l && l <= 'z' && c as u32 + 32 == l as u32)
}

/// `s` spells `token` when ASCII case is ignored (`token` written in lower case).
pub open spec fn spells(s: Seq<char>, token: Seq<char>) -> bool {
    s.len() == token.len() && forall|i: int| 0 <= i < s.len() ==> folds_to(s[i], token[i])
}

impl Summary {
    /// The token that names the statistic on the command line.
    pub open spec fn name_spec(self) -> Seq<char> {
        match self {
            Summary::Mean => "mean"@,
            Summary::N => "N"@,
            Summary::StdDev => "sd"@,
            Summary::Var => "var"@,
        }
    }

    /// The statistic that `s` names, ASCII case ignored, if any.
    pub open spec fn named(s: Seq<char>) -> Option<Summary> {
        if spells(s, "mean"@) {
            Some(Summary::Mean)
        } else if spells(s, "n"@) {
            Some(Summary::N)
        } else if spells(s, "sd"@) {
            Some(Summary::StdDev)
        } else if spells(s, "var"@) {
            Some(Summary::Var)
        } else {
            None
        }
    }

    /// The token that names the statistic on the command line.
    pub fn name(&self) -> (r: &'static str)
        ensures
            r@ == self.name_spec(),
    {
        match self {
            Summary::Mean => "mean",
            Summary::N => "N",
            Summary::StdDev => "sd",
            Summary::Var => "var",
        }
    }

    /// The statistic named by `s` (`mean`, `N`, `sd` or `var`), ignoring
    /// ASCII case.
    pub fn from_name(s: &str) -> (r: Option<Summary>)
        ensures
            r == Summary::named(s@),
    {
        if spells_token(s, "mean") {
            Some(Summary::Mean)
        } else if spells_token(s, "n") {
            Some(Summary::N)
        } else if spells_token(s, "sd") {
            Some(Summary::StdDev)
        } else if spells_token(s, "var") {
            Some(Summary::Var)
        } else {
            None
        }
    }
}

fn spells_token(s: &str, token: &str) -> (r: bool)
    ensures
        r == spells(s@, token@),
{
    let n = s.unicode_len();
    if n != token.unicode_len() {
        return false;
    }
    let mut i: usize = 0;
    while i < n
        invariant
            n == s@.len() == token@.len(),
            i <= n,
            forall|k: int| 0 <= k < i ==> folds_to(s@[k], token@[k]),
        decreases n - i,
    {
        let c = s.get_char(i);
        let l = token.get_char(i);
        let ok = c == l || ('a' <= l && l <= 'z' && c as u32 + 32 == l as u32);
        if !ok {
            return false;
        }
        i = i + 1;
    }
    true
}

/// The key names in one command-line argument: the pieces between commas,
/// each without white space at either end.
pub fn parse_keys(string: &str) -> (r: Vec<String>)
    ensures
        cells_view(r@) == split_on(string@, ',').map_values(|p: Seq<char>| trimmed(p)),
{
    let pieces = split(string, ',');
    let mut res: Vec<String> = Vec::new();
    let mut i: usize = 0;
    while i < pieces.len()
        invariant
            i <= pieces@.len(),
            cells_view(pieces@) == split_on(string@, ','),
            cells_view(res@) =~= cells_view(pieces@).take(i as int).map_values(
                |p: Seq<char>| trimmed(p),
            ),
        decreases pieces@.len() - i,
    {
        let ghost before = cells_view(res@);
        let t = trim(pieces[i].as_str());
        res.push(t);
        assert(cells_view(res@) =~= before.push(trimmed(cells_view(pieces@)[i as int])));
        i = i + 1;
    }
    assert(cells_view(pieces@).take(pieces@.len() as int) =~= cells_view(pieces@));
    res
}

} // verus!
