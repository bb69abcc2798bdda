//! The row table: an ordered sequence of rows, each a mapping from column
//! name to a tagged value. Row count is fixed at simulation start; columns
//! are an open set, since a kernel writeback may add one.

use vstd::prelude::*;
use vstd::string::StrSliceExecFns;
use crate::text::{lower_seq, upper_seq, str_eq_lowered, str_eq_uppered};
use crate::value::Value;

verus! {

/// First-match lookup of a column name among a row's cells.
pub open spec fn lookup(cells: Seq<(String, Value)>, key: Seq<char>) -> Option<Value>
    decreases cells.len(),
{
    if cells.len() == 0 {
        None
    } else if cells[0].0@ == key {
        Some(cells[0].1)
    } else {
        lookup(cells.drop_first(), key)
    }
}

pub(crate) proof fn lemma_lookup_skip(cells: Seq<(String, Value)>, key: Seq<char>, i: int)
    requires
        0 <= i <= cells.len(),
        forall|j: int| 0 <= j < i ==> #[trigger] cells[j].0@ != key,
    ensures
        lookup(cells, key) == lookup(cells.skip(i), key),
    decreases i,
{
    if i > 0 {
        assert(forall|j: int|
            0 <= j < i - 1 ==> #[trigger] cells.drop_first()[j].0@ == cells[j + 1].0@);
        lemma_lookup_skip(cells.drop_first(), key, i - 1);
        assert(cells.drop_first().skip(i - 1) =~= cells.skip(i));
    } else {
        assert(cells.skip(0) =~= cells);
    }
}

proof fn lemma_lookup_update_first(cells: Seq<(String, Value)>, i: int, pair: (String, Value))
    requires
        0 <= i < cells.len(),
        forall|j: int| 0 <= j < i ==> #[trigger] cells[j].0@ != cells[i].0@,
        pair.0@ == cells[i].0@,
    ensures
        lookup(cells.update(i, pair), cells[i].0@) == Some(pair.1),
        forall|k: Seq<char>|
            k != cells[i].0@ ==> #[trigger] lookup(cells.update(i, pair), k) == lookup(cells, k),
    decreases i,
{
    let c2 = cells.update(i, pair);
    let key = cells[i].0@;
    if i == 0 {
        assert(c2[0] == pair);
        assert(c2.drop_first() =~= cells.drop_first());
        assert(lookup(c2, key) == Some(pair.1));
        assert forall|k: Seq<char>| k != key implies #[trigger] lookup(c2, k) == lookup(
            cells,
            k,
        ) by {
            assert(lookup(c2, k) == lookup(c2.drop_first(), k));
            assert(lookup(cells, k) == lookup(cells.drop_first(), k));
        }
    } else {
        assert(c2[0] == cells[0]);
        assert(c2.drop_first() =~= cells.drop_first().update(i - 1, pair));
        assert(forall|j: int|
            0 <= j < cells.len() - 1 ==> #[trigger] cells.drop_first()[j].0@ == cells[j + 1].0@);
        assert(cells.drop_first()[i - 1] == cells[i]);
        lemma_lookup_update_first(cells.drop_first(), i - 1, pair);
        assert(cells[0].0@ != key);
        assert(lookup(c2, key) == lookup(c2.drop_first(), key));
        assert(lookup(c2.drop_first(), key) == Some(pair.1));
        assert forall|k: Seq<char>| k != key implies #[trigger] lookup(c2, k) == lookup(
            cells,
            k,
        ) by {
            if k == cells[0].0@ {
                assert(lookup(c2, k) == Some(c2[0].1));
                assert(lookup(cells, k) == Some(cells[0].1));
            } else {
                assert(lookup(c2, k) == lookup(c2.drop_first(), k));
                assert(lookup(cells, k) == lookup(cells.drop_first(), k));
                assert(lookup(c2.drop_first(), k) == lookup(cells.drop_first(), k));
            }
        }
    }
}

proof fn lemma_lookup_push(cells: Seq<(String, Value)>, pair: (String, Value))
    requires
        forall|j: int| 0 <= j < cells.len() ==> #[trigger] cells[j].0@ != pair.0@,
    ensures
        lookup(cells.push(pair), pair.0@) == Some(pair.1),
        forall|k: Seq<char>|
            k != pair.0@ ==> #[trigger] lookup(cells.push(pair), k) == lookup(cells, k),
    decreases cells.len(),
{
    let c2 = cells.push(pair);
    if cells.len() == 0 {
        assert(c2[0] == pair);
        assert(c2.drop_first() =~= Seq::<(String, Value)>::empty());
        assert forall|k: Seq<char>| k != pair.0@ implies #[trigger] lookup(c2, k) == lookup(
            cells,
            k,
        ) by {
            assert(lookup(c2, k) == lookup(c2.drop_first(), k));
        }
    } else {
        assert(c2[0] == cells[0]);
        assert(c2.drop_first() =~= cells.drop_first().push(pair));
        assert(forall|j: int|
            0 <= j < cells.len() - 1 ==> #[trigger] cells.drop_first()[j].0@ == cells[j + 1].0@);
        lemma_lookup_push(cells.drop_first(), pair);
        assert(cells[0].0@ != pair.0@);
        assert(lookup(c2, pair.0@) == lookup(c2.drop_first(), pair.0@));
        assert forall|k: Seq<char>| k != pair.0@ implies #[trigger] lookup(c2, k) == lookup(
            cells,
            k,
        ) by {
            if k == cells[0].0@ {
                assert(lookup(c2, k) == Some(c2[0].1));
                assert(lookup(cells, k) == Some(cells[0].1));
            } else {
                assert(lookup(c2, k) == lookup(c2.drop_first(), k));
                assert(lookup(cells, k) == lookup(cells.drop_first(), k));
            }
        }
    }
}

/// One entity record: column name to value, in insertion order, with each
/// column name held once.
pub struct Row {
    pub cells: Vec<(String, Value)>,
}

impl View for Row {
    type V = Seq<(String, Value)>;

    open spec fn view(&self) -> Seq<(String, Value)> {
        self.cells@
    }
}

impl Row {
    /// The value this row holds for the column named `key`.
    pub open spec fn spec_get(&self, key: Seq<char>) -> Option<Value> {
        lookup(self@, key)
    }

    pub fn new() -> (r: Row)
        ensures
            r@ =~= Seq::<(String, Value)>::empty(),
    {
        Row { cells: Vec::new() }
    }

    /// Looks a column up by exact name.
    pub fn get(&self, key: &String) -> (r: Option<&Value>)
        ensures
            match r {
                Some(v) => self.spec_get(key@) == Some(*v),
                None => self.spec_get(key@) is None,
            },
    {
        let n = self.cells.len();
        let mut i: usize = 0;
        while i < n
            invariant
                i <= n,
                n == self@.len(),
                forall|j: int| 0 <= j < i ==> #[trigger] self@[j].0@ != key@,
            decreases n - i,
        {
            if self.cells[i].0.eq(key) {
                proof {
                    lemma_lookup_skip(self@, key@, i as int);
                    assert(self@.skip(i as int)[0] == self@[i as int]);
                }
                return Some(&self.cells[i].1);
            }
            i += 1;
        }
        proof {
            lemma_lookup_skip(self@, key@, n as int);
            assert(self@.skip(n as int) =~= Seq::<(String, Value)>::empty());
        }
        None
    }

    /// Looks a column up whose name is the ASCII lower-casing of `key`.
    pub fn get_lowered(&self, key: &String) -> (r: Option<&Value>)
        ensures
            match r {
                Some(v) => self.spec_get(lower_seq(key@)) == Some(*v),
                None => self.spec_get(lower_seq(key@)) is None,
            },
    {
        let n = self.cells.len();
        let mut i: usize = 0;
        while i < n
            invariant
                i <= n,
                n == self@.len(),
                forall|j: int| 0 <= j < i ==> #[trigger] self@[j].0@ != lower_seq(key@),
            decreases n - i,
        {
            if str_eq_lowered(key.as_str(), self.cells[i].0.as_str()) {
                proof {
                    lemma_lookup_skip(self@, lower_seq(key@), i as int);
                    assert(self@.skip(i as int)[0] == self@[i as int]);
                }
                return Some(&self.cells[i].1);
            }
            i += 1;
        }
        proof {
            lemma_lookup_skip(self@, lower_seq(key@), n as int);
            assert(self@.skip(n as int) =~= Seq::<(String, Value)>::empty());
        }
        None
    }

    /// Looks a column up whose name is the ASCII upper-casing of `key`.
    pub fn get_uppered(&self, key: &String) -> (r: Option<&Value>)
        ensures
            match r {
                Some(v) => self.spec_get(upper_seq(key@)) == Some(*v),
                None => self.spec_get(upper_seq(key@)) is None,
            },
    {
        let n = self.cells.len();
        let mut i: usize = 0;
        while i < n
            invariant
                i <= n,
                n == self@.len(),
                forall|j: int| 0 <= j < i ==> #[trigger] self@[j].0@ != upper_seq(key@),
            decreases n - i,
        {
            if str_eq_uppered(key.as_str(), self.cells[i].0.as_str()) {
                proof {
                    lemma_lookup_skip(self@, upper_seq(key@), i as int);
                    assert(self@.skip(i as int)[0] == self@[i as int]);
                }
                return Some(&self.cells[i].1);
            }
            i += 1;
        }
        proof {
            lemma_lookup_skip(self@, upper_seq(key@), n as int);
            assert(self@.skip(n as int) =~= Seq::<(String, Value)>::empty());
        }
        None
    }

    /// Sets the column named `key` to `v`: the first cell of that name is
    /// replaced, or a new cell is appended when the row lacks the column.
    /// Every other column keeps its value.
    pub fn set(&mut self, key: &String, v: Value)
        ensures
            final(self).spec_get(key@) == Some(v),
            forall|k: Seq<char>|
                k != key@ ==> #[trigger] final(self).spec_get(k) == old(self).spec_get(k),
            old(self).spec_get(key@) is Some ==> final(self)@.len() == old(self)@.len(),
            old(self).spec_get(key@) is None ==> final(self)@.len() == old(self)@.len() + 1,
    {
        let n = self.cells.len();
        let mut i: usize = 0;
        while i < n
            invariant
                i <= n,
                n == self@.len(),
                *self == *old(self),
                forall|j: int| 0 <= j < i ==> #[trigger] self@[j].0@ != key@,
            decreases n - i,
        {
            if self.cells[i].0.eq(key) {
                let k_old = self.cells[i].0.clone();
                let ghost cells0 = self.cells@;
                self.cells[i] = (k_old, v);
                proof {
                    assert(self.cells@ == cells0.update(i as int, (k_old, v)));
                    lemma_lookup_update_first(cells0, i as int, (k_old, v));
                    lemma_lookup_skip(cells0, key@, i as int);
                    assert(cells0.skip(i as int)[0] == cells0[i as int]);
                    assert(lookup(cells0, key@) is Some);
                }
                return ;
            }
            i += 1;
        }
        let ghost cells0 = self.cells@;
        let k2 = key.clone();
        let ghost pair = (k2, v);
        self.cells.push((k2, v));
        proof {
            lemma_lookup_push(cells0, pair);
            lemma_lookup_skip(cells0, key@, n as int);
            assert(cells0.skip(n as int) =~= Seq::<(String, Value)>::empty());
        }
    }
}

impl Clone for Row {
    fn clone(&self) -> (res: Self)
        ensures
            res@ == self@,
    {
        let n = self.cells.len();
        let mut cells: Vec<(String, Value)> = Vec::new();
        let mut i: usize = 0;
        while i < n
            invariant
                i <= n,
                n == self.cells@.len(),
                cells@.len() == i,
                forall|j: int| 0 <= j < i ==> #[trigger] cells@[j] == self.cells@[j],
            decreases n - i,
        {
            cells.push((self.cells[i].0.clone(), self.cells[i].1.clone()));
            i += 1;
        }
        proof {
            assert(cells@ =~= self.cells@);
        }
        Row { cells }
    }
}

} // verus!
