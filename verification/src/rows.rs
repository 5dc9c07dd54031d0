use vstd::prelude::*;

verus! {

/// One value of a query result row, as the decoding reads it.
pub struct Cell {
    /// The value itself when it is a string.
    pub text: Option<String>,
    /// The string under the key `"Str"` when the value is an object holding one.
    pub tagged_text: Option<String>,
    /// The value itself when it is a boolean.
    pub flag: Option<bool>,
    /// The boolean under the key `"Bool"` when the value is an object holding one.
    pub tagged_flag: Option<bool>,
}

/// One row of a query result.
pub struct Row {
    /// The row's values, when the row is an array; `None` otherwise.
    pub cells: Option<Vec<Cell>>,
}

/// What a script run answered, as far as the decoding reads it.
pub struct QueryResult {
    /// The array under the key `"rows"`; `None` when there is none.
    pub rows: Option<Vec<Row>>,
}

/// An optional string, by its characters.
pub open spec fn opt_view(o: Option<String>) -> Option<Seq<char>> {
    match o {
        Some(s) => Some(s@),
        None => None,
    }
}

/// A list of strings, by their characters.
pub open spec fn strings(v: Seq<String>) -> Seq<Seq<char>> {
    v.map_values(|s: String| s@)
}

/// The text a cell holds: a plain string, else the string under `"Str"`.
pub open spec fn cell_text(c: Cell) -> Option<Seq<char>> {
    match c.text {
        Some(t) => Some(t@),
        None => opt_view(c.tagged_text),
    }
}

/// The boolean a cell holds: a plain boolean, else the boolean under `"Bool"`.
pub open spec fn cell_flag(c: Cell) -> Option<bool> {
    match c.flag {
        Some(b) => Some(b),
        None => c.tagged_flag,
    }
}

/// The text at column `k` of a row, if the row is an array with a text there.
pub open spec fn row_text(r: Row, k: int) -> Option<Seq<char>> {
    match r.cells {
        Some(cs) => if 0 <= k < cs@.len() {
            cell_text(cs@[k])
        } else {
            None
        },
        None => None,
    }
}

/// The boolean at column `k` of a row, if the row is an array with one there.
pub open spec fn row_flag(r: Row, k: int) -> Option<bool> {
    match r.cells {
        Some(cs) => if 0 <= k < cs@.len() {
            cell_flag(cs@[k])
        } else {
            None
        },
        None => None,
    }
}

/// The texts at column `k` of the rows that have one, in row order.
pub open spec fn column_texts(rows: Seq<Row>, k: int) -> Seq<Seq<char>> {
    rows.filter_map(|r: Row| row_text(r, k))
}

/// Reads the text a cell holds.
pub fn text_of(c: &Cell) -> (r: Option<String>)
    ensures
        opt_view(r) == cell_text(*c),
{
    match &c.text {
        Some(t) => Some(t.clone()),
        None => match &c.tagged_text {
            Some(t) => Some(t.clone()),
            None => None,
        },
    }
}

/// Reads the boolean a cell holds.
pub fn flag_of(c: &Cell) -> (r: Option<bool>)
    ensures
        r == cell_flag(*c),
{
    match c.flag {
        Some(b) => Some(b),
        None => c.tagged_flag,
    }
}

/// Reads the text at column `k` of a row.
pub fn text_at(r: &Row, k: usize) -> (t: Option<String>)
    ensures
        opt_view(t) == row_text(*r, k as int),
{
    match &r.cells {
        Some(cs) => if k < cs.len() {
            text_of(&cs[k])
        } else {
            None
        },
        None => None,
    }
}

/// Reads the boolean at column `k` of a row.
pub fn flag_at(r: &Row, k: usize) -> (b: Option<bool>)
    ensures
        b == row_flag(*r, k as int),
{
    match &r.cells {
        Some(cs) => if k < cs.len() {
            flag_of(&cs[k])
        } else {
            None
        },
        None => None,
    }
}

/// The texts at column `k` of the rows that have one, in row order.
pub fn texts_at(rows: &Vec<Row>, k: usize) -> (v: Vec<String>)
    ensures
        strings(v@) == column_texts(rows@, k as int),
{
    let mut out: Vec<String> = Vec::new();
    let ghost f = |r: Row| row_text(r, k as int);
    let mut i: usize = 0;
    assert(rows@.take(0).filter_map(f) =~= Seq::<Seq<char>>::empty());
    while i < rows.len()
        invariant
            i <= rows@.len(),
            f == (|r: Row| row_text(r, k as int)),
            strings(out@) == rows@.take(i as int).filter_map(f),
        decreases rows@.len() - i,
    {
        let t = text_at(&rows[i], k);
        proof {
            rows@.lemma_filter_map_take_succ(f, i as int);
        }
        match t {
            Some(s) => {
                let ghost before = out@;
                out.push(s);
                assert(strings(out@) == strings(before).push(s@));
            },
            None => {},
        }
        i = i + 1;
    }
    assert(rows@.take(rows@.len() as int) == rows@);
    out
}

} // verus!
