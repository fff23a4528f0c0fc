//! Text helpers: trimming, splitting on a delimiter and joining cells.
use vstd::prelude::*;
use vstd::string::*;

verus! {

/// The characters with the Unicode `White_Space` property.
pub open spec fn is_white_space(c: char) -> bool {
    let u = c as u32;
    (9 <= u && u <= 13) || u == 32 || u == 0x85 || u == 0xA0 || u == 0x1680 || (0x2000 <= u
        && u <= 0x200A) || u == 0x2028 || u == 0x2029 || u == 0x202F || u == 0x205F || u == 0x3000
}

/// `s` without its leading white space.
pub open spec fn trim_start(s: Seq<char>) -> Seq<char>
    decreases s.len(),
{
    if s.len() > 0 && is_white_space(s[0]) {
        trim_start(s.drop_first())
    } else {
        s
    }
}

/// `s` without its trailing white space.
pub open spec fn trim_end(s: Seq<char>) -> Seq<char>
    decreases s.len(),
{
    if s.len() > 0 && is_white_space(s.last()) {
        trim_end(s.drop_last())
    } else {
        s
    }
}

/// `s` without white space at either end.
pub open spec fn trimmed(s: Seq<char>) -> Seq<char> {
    trim_end(trim_start(s))
}

/// Whether `c` has the Unicode `White_Space` property.
pub fn white_space(c: char) -> (r: bool)
    ensures
        r == is_white_space(c),
{
    let u = c as u32;
    (9 <= u && u <= 13) || u == 32 || u == 0x85 || u == 0xA0 || u == 0x1680 || (0x2000 <= u
        && u <= 0x200A) || u == 0x2028 || u == 0x2029 || u == 0x202F || u == 0x205F || u == 0x3000
}

/// Copy of `s` without white space at either end.
pub fn trim(s: &str) -> (r: String)
    ensures
        r@ == trimmed(s@),
{
    let n = s.unicode_len();
    let mut i: usize = 0;
    assert(s@.subrange(0, n as int) =~= s@);
    while i < n && white_space(s.get_char(i))
        invariant
            n == s@.len(),
            i <= n,
            trim_start(s@) == trim_start(s@.subrange(i as int, n as int)),
        decreases n - i,
    {
        assert(s@.subrange(i as int, n as int).drop_first() =~= s@.subrange(i + 1, n as int));
        i = i + 1;
    }
    let ghost start = s@.subrange(i as int, n as int);
    assert(trim_start(s@) == start) by {
        if i < n {
            assert(start[0] == s@[i as int]);
        } else {
            assert(start.len() == 0);
        }
    }
    let mut j: usize = n;
    while j > i && white_space(s.get_char(j - 1))
        invariant
            n == s@.len(),
            i <= j <= n,
            start == s@.subrange(i as int, n as int),
            trim_end(start) == trim_end(s@.subrange(i as int, j as int)),
        decreases j,
    {
        assert(s@.subrange(i as int, j as int).drop_last() =~= s@.subrange(i as int, j - 1));
        j = j - 1;
    }
    let ghost fin = s@.subrange(i as int, j as int);
    assert(trim_end(start) == fin) by {
        if j > i {
            assert(fin.last() == s@[j - 1]);
        } else {
            assert(fin.len() == 0);
        }
    }
    String::from_str(s.substring_char(i, j))
}

/// The characters of each string, in order.
pub open spec fn cells_view(v: Seq<String>) -> Seq<Seq<char>> {
    v.map_values(|c: String| c@)
}

/// The pieces of `s` between occurrences of `d`, in order; `d` itself is
/// in none of them, and there is one piece more than occurrences of `d`.
pub open spec fn split_on(s: Seq<char>, d: char) -> Seq<Seq<char>>
    decreases s.len(),
{
    if s.len() == 0 {
        seq![Seq::empty()]
    } else {
        let prev = split_on(s.drop_last(), d);
        if s.last() == d {
            prev.push(Seq::empty())
        } else {
            prev.update(prev.len() - 1, prev.last().push(s.last()))
        }
    }
}

/// The cells written one after another, with `d` between two neighbours.
pub open spec fn join(cells: Seq<Seq<char>>, d: char) -> Seq<char>
    decreases cells.len(),
{
    if cells.len() == 0 {
        Seq::empty()
    } else if cells.len() == 1 {
        cells[0]
    } else {
        join(cells.drop_last(), d).push(d) + cells.last()
    }
}

/// Relies on `String::from(char)`: a string of that one character.
#[verifier::external_body]
pub(crate) fn char_string(c: char) -> (r: String)
    ensures
        r@ == seq![c],
{
    String::from(c)
}

proof fn lemma_split_on_len(s: Seq<char>, d: char)
    ensures
        split_on(s, d).len() >= 1,
    decreases s.len(),
{
    if s.len() > 0 {
        lemma_split_on_len(s.drop_last(), d);
    }
}

/// The pieces of `s` between occurrences of `d`.
pub fn split(s: &str, d: char) -> (r: Vec<String>)
    ensures
        cells_view(r@) == split_on(s@, d),
{
    let n = s.unicode_len();
    let mut pieces: Vec<String> = Vec::new();
    let mut start: usize = 0;
    let mut i: usize = 0;
    assert(s@.subrange(0, 0) =~= Seq::<char>::empty());
    assert(cells_view(pieces@).push(s@.subrange(0, 0)) =~= seq![Seq::<char>::empty()]);
    while i < n
        invariant
            n == s@.len(),
            start <= i <= n,
            split_on(s@.subrange(0, i as int), d) == cells_view(pieces@).push(
                s@.subrange(start as int, i as int),
            ),
        decreases n - i,
    {
        let c = s.get_char(i);
        let ghost pre = s@.subrange(0, i as int);
        let ghost cur = s@.subrange(0, i + 1);
        assert(cur.drop_last() =~= pre);
        assert(cur.last() == c);
        if c == d {
            let ghost before = cells_view(pieces@);
            let piece = String::from_str(s.substring_char(start, i));
            pieces.push(piece);
            assert(cells_view(pieces@) =~= before.push(s@.subrange(start as int, i as int)));
            start = i + 1;
            assert(s@.subrange(start as int, i + 1) =~= Seq::<char>::empty());
            assert(cells_view(pieces@).push(s@.subrange(start as int, i + 1)) =~= split_on(
                cur,
                d,
            ));
        } else {
            assert(s@.subrange(start as int, i as int).push(c) =~= s@.subrange(
                start as int,
                i + 1,
            ));
            assert(cells_view(pieces@).push(s@.subrange(start as int, i + 1)) =~= split_on(
                cur,
                d,
            ));
        }
        i = i + 1;
    }
    let last = String::from_str(s.substring_char(start, n));
    pieces.push(last);
    assert(s@.subrange(0, n as int) =~= s@);
    assert(cells_view(pieces@) =~= split_on(s@, d));
    pieces
}

/// The cells written one after another, with `d` between two neighbours.
pub fn join_cells(cells: &Vec<String>, d: char) -> (r: String)
    ensures
        r@ == join(cells_view(cells@), d),
{
    let sep = char_string(d);
    let mut r = String::new();
    let mut i: usize = 0;
    while i < cells.len()
        invariant
            i <= cells@.len(),
            sep@ == seq![d],
            r@ == join(cells_view(cells@).take(i as int), d),
        decreases cells@.len() - i,
    {
        let ghost prev = cells_view(cells@).take(i as int);
        let ghost next = cells_view(cells@).take(i + 1);
        assert(next.drop_last() =~= prev);
        if i > 0 {
            r.append(sep.as_str());
        }
        r.append(cells[i].as_str());
        assert(r@ =~= join(next, d));
        i = i + 1;
    }
    assert(cells_view(cells@).take(cells@.len() as int) =~= cells_view(cells@));
    r
}

proof fn lemma_split_on_tail(x: Seq<char>, b: Seq<char>, d: char)
    requires
        !b.contains(d),
    ensures
        split_on(x + b, d) == split_on(x, d).update(
            split_on(x, d).len() - 1,
            split_on(x, d).last() + b,
        ),
    decreases b.len(),
{
    lemma_split_on_len(x, d);
    if b.len() == 0 {
        assert(x + b =~= x);
        assert(split_on(x, d).last() + b =~= split_on(x, d).last());
        assert(split_on(x, d).update(split_on(x, d).len() - 1, split_on(x, d).last() + b)
            =~= split_on(x, d));
    } else {
        let c = b.last();
        let init = b.drop_last();
        assert(b[b.len() - 1] == c);
        lemma_split_on_tail(x, init, d);
        assert((x + b).drop_last() =~= x + init);
        assert((x + b).last() == c);
        assert(b.contains(c));
        assert(c != d);
        let p = split_on(x + init, d);
        assert(split_on(x + b, d) == p.update(p.len() - 1, p.last().push(c)));
        assert((split_on(x, d).last() + init).push(c) =~= split_on(x, d).last() + b);
        assert(split_on(x + b, d) =~= split_on(x, d).update(
            split_on(x, d).len() - 1,
            split_on(x, d).last() + b,
        ));
    }
}

/// Splitting joined cells on the delimiter gives the cells back, as long as
/// there is at least one cell and no cell holds the delimiter.
pub proof fn lemma_split_join(cells: Seq<Seq<char>>, d: char)
    requires
        cells.len() >= 1,
        forall|i: int| 0 <= i < cells.len() ==> !(#[trigger] cells[i]).contains(d),
    ensures
        split_on(join(cells, d), d) == cells,
    decreases cells.len(),
{
    if cells.len() == 1 {
        let e = Seq::<char>::empty();
        lemma_split_on_tail(e, cells[0], d);
        assert(e + cells[0] =~= cells[0]);
        assert(split_on(e, d) =~= seq![e]);
        assert(seq![e].update(0, e + cells[0]) =~= cells);
    } else {
        let init = cells.drop_last();
        let c = cells.last();
        lemma_split_join(init, d);
        let head = join(init, d).push(d);
        lemma_split_on_tail(head, c, d);
        assert(head.drop_last() =~= join(init, d));
        lemma_split_on_len(head, d);
        assert(split_on(head, d) == init.push(Seq::empty()));
        assert(Seq::<char>::empty() + c =~= c);
        assert(init.push(Seq::empty()).update(init.len() as int, c) =~= cells);
    }
}

/// Whether the two rows hold the same cells, in the same order.
pub fn same_cells(a: &Vec<String>, b: &Vec<String>) -> (r: bool)
    ensures
        r == (cells_view(a@) == cells_view(b@)),
{
    if a.len() != b.len() {
        assert(cells_view(a@).len() != cells_view(b@).len());
        return false;
    }
    let mut i: usize = 0;
    while i < a.len()
        invariant
            a@.len() == b@.len(),
            i <= a@.len(),
            forall|j: int| 0 <= j < i ==> a@[j]@ == b@[j]@,
        decreases a@.len() - i,
    {
        if a[i] != b[i] {
            assert(cells_view(a@)[i as int] != cells_view(b@)[i as int]);
            return false;
        }
        i = i + 1;
    }
    assert(cells_view(a@) =~= cells_view(b@));
    true
}

} // verus!
