use vstd::prelude::*;
use crate::text::text_eq;

verus! {

/// A value of a table: text, a number kept as the digits the provider sent, a
/// truth value, or nothing.
#[derive(Debug, PartialEq, Eq)]
pub enum Cell {
    Text(String),
    Number(String),
    Bool(bool),
    Null,
}

/// Mathematical model of a [`Cell`].
pub enum CellView {
    Text(Seq<char>),
    Number(Seq<char>),
    Bool(bool),
    Null,
}

impl CellView {
    /// The text that stands for the cell wherever it is written or matched:
    /// text and numbers as they are, `true` or `false`, nothing for null.
    pub open spec fn text(self) -> Seq<char> {
        match self {
            CellView::Text(s) => s,
            CellView::Number(s) => s,
            CellView::Bool(b) => if b {
                "true"@
            } else {
                "false"@
            },
            CellView::Null => Seq::empty(),
        }
    }
}

impl View for Cell {
    type V = CellView;

    open spec fn view(&self) -> CellView {
        match self {
            Cell::Text(s) => CellView::Text(s@),
            Cell::Number(s) => CellView::Number(s@),
            Cell::Bool(b) => CellView::Bool(*b),
            Cell::Null => CellView::Null,
        }
    }
}

impl Clone for Cell {
    fn clone(&self) -> (r: Cell)
        ensures
            r@ == self@,
    {
        match self {
            Cell::Text(s) => Cell::Text(s.clone()),
            Cell::Number(s) => Cell::Number(s.clone()),
            Cell::Bool(b) => Cell::Bool(*b),
            Cell::Null => Cell::Null,
        }
    }
}

impl Cell {
    /// The cell as text.
    pub fn render(&self) -> (r: String)
        ensures
            r@ == self@.text(),
    {
        match self {
            Cell::Text(s) => s.clone(),
            Cell::Number(s) => s.clone(),
            Cell::Bool(b) => if *b {
                "true".to_owned()
            } else {
                "false".to_owned()
            },
            Cell::Null => String::new(),
        }
    }
}

/// The models of a sequence of strings, in order.
pub open spec fn strings_view(v: Seq<String>) -> Seq<Seq<char>> {
    Seq::new(v.len(), |i: int| v[i]@)
}

/// The models of the cells of a row, in order.
pub open spec fn row_view(row: Seq<Cell>) -> Seq<CellView> {
    Seq::new(row.len(), |j: int| row[j]@)
}

/// The models of rows, in order.
pub open spec fn rows_view(rows: Seq<Vec<Cell>>) -> Seq<Seq<CellView>> {
    Seq::new(rows.len(), |i: int| row_view(rows[i]@))
}

/// Mathematical model of a [`Table`]: column names and rows of cells.
pub struct TableView {
    pub columns: Seq<Seq<char>>,
    pub rows: Seq<Seq<CellView>>,
}

impl TableView {
    /// Every row has one cell for each column.
    pub open spec fn rows_fit(self) -> bool {
        forall|i: int|
            0 <= i < self.rows.len() ==> (#[trigger] self.rows[i]).len() == self.columns.len()
    }

    /// The invariant of a table: no column name occurs twice, and every row
    /// has exactly one cell for each column.
    pub open spec fn wf(self) -> bool {
        self.unique_columns() && self.rows_fit()
    }

    /// No column name occurs twice.
    pub open spec fn unique_columns(self) -> bool {
        self.columns.no_duplicates()
    }

    /// The position of the column called `name`, if there is one.
    pub open spec fn column_index(self, name: Seq<char>) -> Option<int> {
        first_index_of(self.columns, name)
    }
}

/// The first position at which `name` stands in `names`, if it stands there.
pub open spec fn first_index_of<T>(names: Seq<T>, name: T) -> Option<int>
    decreases names.len(),
{
    if names.len() == 0 {
        None
    } else if names[0] == name {
        Some(0)
    } else {
        match first_index_of(names.drop_first(), name) {
            Some(i) => Some(i + 1),
            None => None,
        }
    }
}

/// For each name, whether it stands there for the first time.
pub open spec fn first_flags(names: Seq<Seq<char>>) -> Seq<bool> {
    Seq::new(names.len(), |i: int| first_index_of(names, names[i]) == Some(i))
}

/// The position of the first name that stood among the names before it.
pub open spec fn first_duplicate(names: Seq<Seq<char>>) -> Option<int> {
    first_index_of(first_flags(names), false)
}

/// An ordered list of unique column names and an ordered list of rows whose
/// cells are aligned with the columns: every row has exactly one cell for
/// each column.
#[derive(Debug, PartialEq, Eq)]
pub struct Table {
    pub(crate) columns: Vec<String>,
    pub(crate) rows: Vec<Vec<Cell>>,
}

impl View for Table {
    type V = TableView;

    closed spec fn view(&self) -> TableView {
        TableView { columns: strings_view(self.columns@), rows: rows_view(self.rows@) }
    }
}

/// Whether every one of `rows` has `width` cells.
pub open spec fn rectangular(rows: Seq<Vec<Cell>>, width: nat) -> bool {
    forall|i: int| 0 <= i < rows.len() ==> (#[trigger] rows[i])@.len() == width
}

impl Table {
    #[verifier::type_invariant]
    spec fn inv(self) -> bool {
        rectangular(self.rows@, self.columns@.len()) && strings_view(self.columns@).no_duplicates()
    }

    /// A table of these columns and rows, where no column name occurs twice
    /// and each row has a cell for each column; nothing otherwise.
    pub fn new(columns: Vec<String>, rows: Vec<Vec<Cell>>) -> (r: Option<Table>)
        ensures
            r is Some <==> rectangular(rows@, columns@.len()) && strings_view(
                columns@,
            ).no_duplicates(),
            r is Some ==> r.unwrap()@ == (TableView {
                columns: strings_view(columns@),
                rows: rows_view(rows@),
            }),
            r is Some ==> r.unwrap()@.wf(),
    {
        proof {
            lemma_first_duplicate(strings_view(columns@));
        }
        if find_duplicate(&columns).is_some() {
            return None;
        }
        let width = columns.len();
        let mut i: usize = 0;
        while i < rows.len()
            invariant
                i <= rows.len(),
                width == columns@.len(),
                forall|k: int| 0 <= k < i ==> (#[trigger] rows@[k])@.len() == width,
            decreases rows.len() - i,
        {
            if rows[i].len() != width {
                return None;
            }
            i += 1;
        }
        Some(Table { columns, rows })
    }

    /// The column names, in order.
    pub fn columns(&self) -> (r: &Vec<String>)
        ensures
            strings_view(r@) == self@.columns,
            self@.wf(),
    {
        proof {
            use_type_invariant(self);
        }
        &self.columns
    }

    /// The rows, in order.
    pub fn rows(&self) -> (r: &Vec<Vec<Cell>>)
        ensures
            rows_view(r@) == self@.rows,
            rectangular(r@, self@.columns.len()),
            self@.wf(),
    {
        proof {
            use_type_invariant(self);
        }
        &self.rows
    }

    /// The columns and the rows, handed over.
    pub fn into_parts(self) -> (r: (Vec<String>, Vec<Vec<Cell>>))
        ensures
            strings_view(r.0@) == self@.columns,
            rows_view(r.1@) == self@.rows,
            rectangular(r.1@, r.0@.len()),
            self@.wf(),
    {
        proof {
            use_type_invariant(&self);
        }
        (self.columns, self.rows)
    }

    /// The position of the column called `name`.
    pub fn column_index(&self, name: &str) -> (r: Option<usize>)
        ensures
            match r {
                Some(i) => self@.column_index(name@) == Some(i as int),
                None => self@.column_index(name@) is None,
            },
    {
        index_of(&self.columns, name)
    }
}

/// The first position at which `name` stands in `names`.
pub fn index_of(names: &Vec<String>, name: &str) -> (r: Option<usize>)
    ensures
        match r {
            Some(i) => first_index_of(strings_view(names@), name@) == Some(i as int),
            None => first_index_of(strings_view(names@), name@) is None,
        },
{
    let mut i: usize = 0;
    while i < names.len()
        invariant
            i <= names.len(),
            forall|k: int| 0 <= k < i ==> strings_view(names@)[k] != name@,
        decreases names.len() - i,
    {
        if text_eq(names[i].as_str(), name) {
            proof {
                lemma_first_index_is(strings_view(names@), name@, i as int);
            }
            return Some(i);
        }
        i += 1;
    }
    proof {
        lemma_first_index_of(strings_view(names@), name@);
    }
    None
}

/// The first position of a name is a position of it, and none before it is;
/// there is none only where the name stands nowhere.
pub proof fn lemma_first_index_of<T>(names: Seq<T>, name: T)
    ensures
        match first_index_of(names, name) {
            Some(i) => 0 <= i < names.len() && names[i] == name && forall|k: int|
                0 <= k < i ==> names[k] != name,
            None => forall|k: int| 0 <= k < names.len() ==> names[k] != name,
        },
    decreases names.len(),
{
    if names.len() > 0 && names[0] != name {
        let rest = names.drop_first();
        lemma_first_index_of(rest, name);
        match first_index_of(rest, name) {
            Some(i) => {
                assert forall|k: int| 0 <= k < i + 1 implies names[k] != name by {
                    if k > 0 {
                        assert(names[k] == rest[k - 1]);
                    }
                }
            },
            None => {
                assert forall|k: int| 0 <= k < names.len() implies names[k] != name by {
                    if k > 0 {
                        assert(names[k] == rest[k - 1]);
                    }
                }
            },
        }
    }
}

/// A position of the name before which it does not stand is its first.
pub proof fn lemma_first_index_is<T>(names: Seq<T>, name: T, i: int)
    requires
        0 <= i < names.len(),
        names[i] == name,
        forall|k: int| 0 <= k < i ==> names[k] != name,
    ensures
        first_index_of(names, name) == Some(i),
{
    lemma_first_index_of(names, name);
}

/// The position of the first name that stood among the names before it.
pub fn find_duplicate(names: &Vec<String>) -> (r: Option<usize>)
    ensures
        match r {
            Some(h) => first_duplicate(strings_view(names@)) == Some(h as int),
            None => first_duplicate(strings_view(names@)) is None,
        },
{
    let ghost all = strings_view(names@);
    let mut i: usize = 0;
    while i < names.len()
        invariant
            i <= names.len(),
            all == strings_view(names@),
            forall|k: int| 0 <= k < i ==> first_flags(all)[k] != false,
        decreases names.len() - i,
    {
        let found = index_of(names, names[i].as_str());
        proof {
            lemma_first_index_of(all, all[i as int]);
        }
        if found != Some(i) {
            proof {
                lemma_first_index_is(first_flags(all), false, i as int);
            }
            return Some(i);
        }
        i += 1;
    }
    proof {
        lemma_first_index_of(first_flags(all), false);
    }
    None
}

/// Names hold no duplicate just when none of them stood there before; the
/// first duplicate stands at a position before which its name stands too.
pub proof fn lemma_first_duplicate(names: Seq<Seq<char>>)
    ensures
        first_duplicate(names) is None <==> names.no_duplicates(),
        match first_duplicate(names) {
            Some(h) => 0 <= h < names.len() && exists|k: int| 0 <= k < h && names[k] == names[h],
            None => true,
        },
{
    lemma_first_index_of(first_flags(names), false);
    match first_duplicate(names) {
        Some(h) => {
            lemma_first_index_of(names, names[h]);
            let k = first_index_of(names, names[h]).unwrap();
            assert(0 <= k < h && names[k] == names[h]);
        },
        None => {
            assert forall|i: int, j: int|
                0 <= i < names.len() && 0 <= j < names.len() && i != j implies names[i]
                != names[j] by {
                assert(first_flags(names)[i] != false);
                assert(first_flags(names)[j] != false);
                lemma_first_index_of(names, names[i]);
                lemma_first_index_of(names, names[j]);
            }
        },
    }
    if names.no_duplicates() {
        assert forall|i: int| 0 <= i < names.len() implies first_flags(names)[i] != false by {
            lemma_first_index_of(names, names[i]);
        }
    }
}

} // verus!
