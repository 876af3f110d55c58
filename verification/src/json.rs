use vstd::prelude::*;
use crate::error::{path_view, FetchError, FetchErrorView, PathStep, PathStepView};
use crate::table::{first_index_of, lemma_first_index_is, lemma_first_index_of, Cell, CellView};
use crate::text::text_eq;

verus! {

/// A parsed document. A number is kept as the digits it was written with, and
/// the fields of an object in the order they were written in.
#[derive(Debug, PartialEq, Eq)]
pub enum Json {
    Null,
    Bool(bool),
    Number(String),
    Str(String),
    Array(Vec<Json>),
    Object(Vec<(String, Json)>),
}

/// The names of the fields of an object, in order.
pub open spec fn entry_keys(entries: Seq<(String, Json)>) -> Seq<Seq<char>> {
    Seq::new(entries.len(), |i: int| entries[i].0@)
}

impl Json {
    /// The value of the first field called `key`, where this is an object that
    /// has one.
    pub open spec fn spec_get(self, key: Seq<char>) -> Option<Json> {
        match self {
            Json::Object(entries) => match first_index_of(entry_keys(entries@), key) {
                Some(i) => Some(entries@[i].1),
                None => None,
            },
            _ => None,
        }
    }

    /// The element at position `i`, where this is an array that has one.
    pub open spec fn spec_at(self, i: nat) -> Option<Json> {
        match self {
            Json::Array(items) => if i < items@.len() {
                Some(items@[i as int])
            } else {
                None
            },
            _ => None,
        }
    }

    /// The value one step into this one.
    pub open spec fn spec_step(self, step: PathStepView) -> Option<Json> {
        match step {
            PathStepView::Key(k) => self.spec_get(k),
            PathStepView::Index(i) => self.spec_at(i),
        }
    }

    /// Whether this is a scalar, which a cell can hold: null, a truth value,
    /// a number or a string.
    pub open spec fn is_scalar(self) -> bool {
        !(self is Array) && !(self is Object)
    }

    /// The cell that holds this scalar. An array or an object, which no cell
    /// can hold, has none: the adapters refuse it.
    pub open spec fn cell(self) -> CellView
        recommends
            self.is_scalar(),
    {
        match self {
            Json::Null => CellView::Null,
            Json::Bool(b) => CellView::Bool(b),
            Json::Number(n) => CellView::Number(n@),
            Json::Str(s) => CellView::Text(s@),
            Json::Array(_) => CellView::Null,
            Json::Object(_) => CellView::Null,
        }
    }

    /// The value of the first field called `key`.
    pub fn get(&self, key: &str) -> (r: Option<&Json>)
        ensures
            match r {
                Some(v) => self.spec_get(key@) == Some(*v),
                None => self.spec_get(key@) is None,
            },
    {
        match self {
            Json::Object(entries) => {
                let mut i: usize = 0;
                while i < entries.len()
                    invariant
                        i <= entries.len(),
                        *self == Json::Object(*entries),
                        forall|k: int| 0 <= k < i ==> entry_keys(entries@)[k] != key@,
                    decreases entries.len() - i,
                {
                    if text_eq(entries[i].0.as_str(), key) {
                        proof {
                            lemma_first_index_is(entry_keys(entries@), key@, i as int);
                        }
                        return Some(&entries[i].1);
                    }
                    i += 1;
                }
                proof {
                    lemma_first_index_of(entry_keys(entries@), key@);
                }
                None
            },
            _ => None,
        }
    }

    /// The element at position `i`.
    pub fn at(&self, i: usize) -> (r: Option<&Json>)
        ensures
            match r {
                Some(v) => self.spec_at(i as nat) == Some(*v),
                None => self.spec_at(i as nat) is None,
            },
    {
        match self {
            Json::Array(items) => if i < items.len() {
                Some(&items[i])
            } else {
                None
            },
            _ => None,
        }
    }

    /// The value one step into this one.
    pub fn step(&self, step: &PathStep) -> (r: Option<&Json>)
        ensures
            match r {
                Some(v) => self.spec_step(step@) == Some(*v),
                None => self.spec_step(step@) is None,
            },
    {
        match step {
            PathStep::Key(k) => self.get(k.as_str()),
            PathStep::Index(i) => self.at(*i),
        }
    }

    /// Whether this is a scalar.
    pub fn scalar(&self) -> (r: bool)
        ensures
            r == self.is_scalar(),
    {
        match self {
            Json::Array(_) => false,
            Json::Object(_) => false,
            _ => true,
        }
    }

    /// The cell that holds this scalar.
    pub fn to_cell(&self) -> (r: Cell)
        requires
            self.is_scalar(),
        ensures
            r@ == self.cell(),
    {
        match self {
            Json::Null => Cell::Null,
            Json::Bool(b) => Cell::Bool(*b),
            Json::Number(n) => Cell::Number(n.clone()),
            Json::Str(s) => Cell::Text(s.clone()),
            Json::Array(_) => Cell::Null,
            Json::Object(_) => Cell::Null,
        }
    }
}

/// The value that `path` leads to from `doc`, or else the part of the path up
/// to the first step that leads nowhere.
pub open spec fn walk_spec(doc: Json, path: Seq<PathStepView>) -> Result<Json, Seq<PathStepView>>
    decreases path.len(),
{
    if path.len() == 0 {
        Ok(doc)
    } else {
        match walk_spec(doc, path.drop_last()) {
            Err(p) => Err(p),
            Ok(v) => match v.spec_step(path.last()) {
                Some(w) => Ok(w),
                None => Err(path),
            },
        }
    }
}

/// A copy of a step.
pub fn copy_step(step: &PathStep) -> (r: PathStep)
    ensures
        r@ == step@,
{
    match step {
        PathStep::Key(k) => PathStep::Key(k.clone()),
        PathStep::Index(i) => PathStep::Index(*i),
    }
}

/// A copy of the first `n` steps.
pub fn copy_steps(path: &Vec<PathStep>, n: usize) -> (r: Vec<PathStep>)
    requires
        n <= path@.len(),
    ensures
        path_view(r@) == path_view(path@).take(n as int),
{
    let mut out: Vec<PathStep> = Vec::new();
    let mut i: usize = 0;
    while i < n
        invariant
            i <= n <= path@.len(),
            path_view(out@) == path_view(path@).take(i as int),
        decreases n - i,
    {
        let ghost before = out@;
        let step = copy_step(&path[i]);
        out.push(step);
        assert(path_view(out@) =~= path_view(before).push(step@));
        assert(path_view(path@).take(i + 1) =~= path_view(path@).take(i as int).push(
            path@[i as int]@,
        ));
        i += 1;
    }
    out
}

/// Follows `path` from `doc`, a field or an element at each step. Where a
/// step leads nowhere, the result is the path up to that step.
pub fn follow<'a>(doc: &'a Json, path: &Vec<PathStep>) -> (r: Result<&'a Json, Vec<PathStep>>)
    ensures
        match r {
            Ok(v) => walk_spec(*doc, path_view(path@)) == Ok::<Json, Seq<PathStepView>>(*v),
            Err(p) => walk_spec(*doc, path_view(path@)) == Err::<Json, Seq<PathStepView>>(
                path_view(p@),
            ),
        },
{
    let ghost steps = path_view(path@);
    let mut cur = doc;
    let mut i: usize = 0;
    while i < path.len()
        invariant
            i <= path.len(),
            steps == path_view(path@),
            walk_spec(*doc, steps.take(i as int)) == Ok::<Json, Seq<PathStepView>>(*cur),
        decreases path.len() - i,
    {
        proof {
            assert(steps.take(i + 1).drop_last() == steps.take(i as int));
            assert(steps.take(i + 1).last() == path@[i as int]@);
        }
        match cur.step(&path[i]) {
            Some(next) => {
                cur = next;
            },
            None => {
                let failed = copy_steps(path, i + 1);
                proof {
                    lemma_walk_fails(*doc, steps, i + 1);
                }
                return Err(failed);
            },
        }
        i += 1;
    }
    proof {
        assert(steps.take(path@.len() as int) == steps);
    }
    Ok(cur)
}

/// Follows `path` from `doc`, a field or an element at each step. Where a
/// step leads nowhere, the error names the path up to that step.
pub fn walk<'a>(doc: &'a Json, path: &Vec<PathStep>) -> (r: Result<&'a Json, FetchError>)
    ensures
        match r {
            Ok(v) => walk_spec(*doc, path_view(path@)) == Ok::<Json, Seq<PathStepView>>(*v),
            Err(e) => walk_spec(*doc, path_view(path@)) is Err && e@ == (FetchErrorView::Schema {
                path: walk_spec(*doc, path_view(path@))->Err_0,
            }),
        },
{
    match follow(doc, path) {
        Ok(v) => Ok(v),
        Err(p) => Err(FetchError::Schema { path: p }),
    }
}

/// A walk that fails on a part of a path fails in the same place on all of it.
pub proof fn lemma_walk_fails(doc: Json, path: Seq<PathStepView>, n: int)
    requires
        0 <= n <= path.len(),
        walk_spec(doc, path.take(n)) is Err,
    ensures
        walk_spec(doc, path) == walk_spec(doc, path.take(n)),
    decreases path.len() - n,
{
    if n == path.len() {
        assert(path.take(n) == path);
    } else {
        assert(path.take(n + 1).drop_last() == path.take(n));
        lemma_walk_fails(doc, path, n + 1);
    }
}

} // verus!
