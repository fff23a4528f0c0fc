//! Resolving the columns that a run names to their positions in the header.
use crate::config::Opt;
use crate::text::cells_view;
use vstd::prelude::*;

verus! {

/// `i` is the first position of `name` in `h`.
pub open spec fn is_first_position(h: Seq<Seq<char>>, name: Seq<char>, i: int) -> bool {
    0 <= i < h.len() && h[i] == name && forall|j: int| 0 <= j < i ==> h[j] != name
}

/// The names among `names` that `h` lacks, in order.
pub open spec fn missing_of(h: Seq<Seq<char>>, names: Seq<Seq<char>>) -> Seq<Seq<char>>
    decreases names.len(),
{
    if names.len() == 0 {
        Seq::empty()
    } else {
        let prev = missing_of(h, names.drop_last());
        if h.contains(names.last()) {
            prev
        } else {
            prev.push(names.last())
        }
    }
}

/// The names that a run refers to: the value column first, then the keys.
pub open spec fn referenced(opt: &Opt) -> Seq<Seq<char>> {
    seq![opt.field@] + cells_view(opt.keys@)
}

/// Positions of the columns that a run refers to.
pub struct HeaderIndex {
    /// Position of the value column.
    pub field_pos: usize,
    /// Position of each key column, in the order of the keys.
    pub key_positions: Vec<usize>,
}

/// Some referenced columns are not in the header.
pub struct UnknownColumn {
    /// The names that were not found: the value column first, then the keys.
    pub missing: Vec<String>,
}

impl UnknownColumn {
    /// The diagnostic shown to the user.
    pub fn message(&self) -> (r: &'static str)
        ensures
            r@ == "Either the field or the key(s) were not recognised, please check spelling."@,
    {
        "Either the field or the key(s) were not recognised, please check spelling."
    }
}

impl HeaderIndex {
    /// `self` gives, for the value column and for each key, its first
    /// position in `h`.
    pub open spec fn resolves(&self, h: Seq<Seq<char>>, opt: &Opt) -> bool {
        &&& is_first_position(h, opt.field@, self.field_pos as int)
        &&& self.key_positions@.len() == opt.keys@.len()
        &&& forall|k: int|
            0 <= k < opt.keys@.len() ==> is_first_position(
                h,
                opt.keys@[k]@,
                #[trigger] self.key_positions@[k] as int,
            )
    }

    /// Every referenced position lies inside a record of length `len`.
    pub open spec fn fits_spec(&self, len: nat) -> bool {
        &&& self.field_pos < len
        &&& forall|k: int|
            0 <= k < self.key_positions@.len() ==> #[trigger] self.key_positions@[k] < len
    }

    /// The cells of `record` at the key positions, in order.
    pub open spec fn key_spec(&self, record: Seq<Seq<char>>) -> Seq<Seq<char>> {
        self.key_positions@.map_values(|p: usize| record[p as int])
    }

    /// Finds the value column and the key columns in `header` (exact
    /// comparison, first occurrence). Fails, naming the missing columns,
    /// when any of them is absent.
    pub fn build(header: &Vec<String>, opt: &Opt) -> (r: Result<HeaderIndex, UnknownColumn>)
        ensures
            r is Ok <==> missing_of(cells_view(header@), referenced(opt)).len() == 0,
            r is Ok ==> r->Ok_0.resolves(cells_view(header@), opt),
            r is Err ==> cells_view(r->Err_0.missing@) == missing_of(
                cells_view(header@),
                referenced(opt),
            ),
    {
        let ghost h = cells_view(header@);
        let ghost names = referenced(opt);
        let mut missing: Vec<String> = Vec::new();
        let field_found = find_column(header, &opt.field);
        let mut field_pos: usize = 0;
        match field_found {
            Some(p) => {
                field_pos = p;
            },
            None => {
                missing.push(opt.field.clone());
            },
        }
        assert(names.take(1).drop_last() =~= Seq::<Seq<char>>::empty());
        assert(names.take(1).last() == opt.field@);
        assert(missing_of(h, Seq::<Seq<char>>::empty()) == Seq::<Seq<char>>::empty());
        assert(field_found is None ==> cells_view(missing@) =~= seq![opt.field@]);
        assert(cells_view(missing@) =~= missing_of(h, names.take(1)));
        let mut key_positions: Vec<usize> = Vec::new();
        let mut k: usize = 0;
        while k < opt.keys.len()
            invariant
                h == cells_view(header@),
                names == referenced(opt),
                names.len() == opt.keys@.len() + 1,
                k <= opt.keys@.len(),
                cells_view(missing@) == missing_of(h, names.take(k + 1)),
                missing@.len() == 0 ==> {
                    &&& is_first_position(h, opt.field@, field_pos as int)
                    &&& key_positions@.len() == k
                    &&& forall|j: int|
                        0 <= j < k ==> is_first_position(
                            h,
                            opt.keys@[j]@,
                            #[trigger] key_positions@[j] as int,
                        )
                },
            decreases opt.keys@.len() - k,
        {
            let ghost before = cells_view(missing@);
            assert(names.take(k + 2).drop_last() =~= names.take(k + 1));
            assert(names.take(k + 2).last() == opt.keys@[k as int]@);
            match find_column(header, &opt.keys[k]) {
                Some(p) => {
                    key_positions.push(p);
                },
                None => {
                    missing.push(opt.keys[k].clone());
                    assert(cells_view(missing@) =~= before.push(opt.keys@[k as int]@));
                },
            }
            k = k + 1;
        }
        assert(names.take(k + 1) =~= names);
        if missing.len() == 0 {
            Ok(HeaderIndex { field_pos, key_positions })
        } else {
            Err(UnknownColumn { missing })
        }
    }

    /// Whether every referenced position lies inside `record`.
    pub fn fits(&self, record: &Vec<String>) -> (r: bool)
        ensures
            r == self.fits_spec(record@.len()),
    {
        if self.field_pos >= record.len() {
            return false;
        }
        let mut k: usize = 0;
        while k < self.key_positions.len()
            invariant
                k <= self.key_positions@.len(),
                forall|j: int| 0 <= j < k ==> #[trigger] self.key_positions@[j] < record@.len(),
            decreases self.key_positions@.len() - k,
        {
            if self.key_positions[k] >= record.len() {
                return false;
            }
            k = k + 1;
        }
        true
    }

    /// The cells of `record` at the key positions, in order.
    pub fn key_of(&self, record: &Vec<String>) -> (r: Vec<String>)
        requires
            self.fits_spec(record@.len()),
        ensures
            cells_view(r@) == self.key_spec(cells_view(record@)),
    {
        let mut key: Vec<String> = Vec::new();
        let mut k: usize = 0;
        while k < self.key_positions.len()
            invariant
                k <= self.key_positions@.len(),
                self.fits_spec(record@.len()),
                cells_view(key@) =~= self.key_spec(cells_view(record@)).take(k as int),
            decreases self.key_positions@.len() - k,
        {
            let ghost before = cells_view(key@);
            let p = self.key_positions[k];
            key.push(record[p].clone());
            assert(cells_view(key@) =~= before.push(cells_view(record@)[p as int]));
            k = k + 1;
        }
        assert(self.key_spec(cells_view(record@)).take(k as int) =~= self.key_spec(
            cells_view(record@),
        ));
        key
    }
}

/// The first position of `name` in `header`, if any.
pub fn find_column(header: &Vec<String>, name: &String) -> (r: Option<usize>)
    ensures
        r is Some ==> is_first_position(cells_view(header@), name@, r->Some_0 as int),
        r is None ==> !cells_view(header@).contains(name@),
{
    let mut i: usize = 0;
    while i < header.len()
        invariant
            i <= header@.len(),
            forall|j: int| 0 <= j < i ==> cells_view(header@)[j] != name@,
        decreases header@.len() - i,
    {
        if header[i] == *name {
            return Some(i);
        }
        i = i + 1;
    }
    None
}

} // verus!
