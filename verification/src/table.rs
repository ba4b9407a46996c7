//! A small map from names to values: rows in a list, each name once.

use vstd::prelude::*;

use crate::text::same;

verus! {

/// Values by name. The rows keep the order in which their names first came.
#[derive(Debug)]
pub struct Table<T> {
    rows: Vec<(String, T)>,
}

/// Where a name stands among rows.
spec fn row_of<T>(rows: Seq<(String, T)>, name: Seq<char>, i: int) -> bool {
    0 <= i < rows.len() && rows[i].0@ == name
}

spec fn names_distinct<T>(rows: Seq<(String, T)>) -> bool {
    forall|i: int, j: int|
        0 <= i < j < rows.len() ==> (#[trigger] rows[i]).0@ != (#[trigger] rows[j]).0@
}

spec fn map_of<T>(rows: Seq<(String, T)>) -> Map<Seq<char>, T> {
    Map::new(
        |name: Seq<char>| exists|i: int| row_of(rows, name, i),
        |name: Seq<char>| rows[choose|i: int| row_of(rows, name, i)].1,
    )
}

impl<T> View for Table<T> {
    type V = Map<Seq<char>, T>;

    closed spec fn view(&self) -> Map<Seq<char>, T> {
        map_of(self.rows@)
    }
}

proof fn lemma_row<T>(rows: Seq<(String, T)>, i: int)
    requires
        names_distinct(rows),
        0 <= i < rows.len(),
    ensures
        map_of(rows).contains_key(rows[i].0@),
        map_of(rows)[rows[i].0@] == rows[i].1,
{
    assert(row_of(rows, rows[i].0@, i));
    let k = choose|k: int| row_of(rows, rows[i].0@, k);
    assert(k == i);
}

proof fn lemma_absent<T>(rows: Seq<(String, T)>, name: Seq<char>)
    requires
        forall|j: int| 0 <= j < rows.len() ==> (#[trigger] rows[j]).0@ != name,
    ensures
        !map_of(rows).contains_key(name),
{
}

proof fn lemma_pushed<T>(rows: Seq<(String, T)>, row: (String, T))
    requires
        names_distinct(rows),
        !map_of(rows).contains_key(row.0@),
    ensures
        names_distinct(rows.push(row)),
        map_of(rows.push(row)) == map_of(rows).insert(row.0@, row.1),
{
    let after = rows.push(row);
    assert forall|i: int| 0 <= i < rows.len() implies (#[trigger] rows[i]).0@ != row.0@ by {
        lemma_row(rows, i);
    }
    assert(names_distinct(after));
    assert forall|name: Seq<char>|
        map_of(after).contains_key(name) == map_of(rows).insert(row.0@, row.1).contains_key(
            name,
        ) by {
        if exists|i: int| row_of(after, name, i) {
            let i = choose|i: int| row_of(after, name, i);
            if i < rows.len() {
                assert(row_of(rows, name, i));
            }
        }
        if exists|i: int| row_of(rows, name, i) {
            let i = choose|i: int| row_of(rows, name, i);
            assert(row_of(after, name, i));
        }
        assert(row_of(after, row.0@, rows.len() as int));
    }
    assert forall|name: Seq<char>| map_of(after).contains_key(name) implies map_of(after)[name]
        == map_of(rows).insert(row.0@, row.1)[name] by {
        let i = choose|i: int| row_of(after, name, i);
        lemma_row(after, i);
        if i < rows.len() {
            lemma_row(rows, i);
        }
    }
    assert(map_of(after) =~= map_of(rows).insert(row.0@, row.1));
}

proof fn lemma_removed<T>(rows: Seq<(String, T)>, k: int)
    requires
        names_distinct(rows),
        0 <= k < rows.len(),
    ensures
        names_distinct(rows.remove(k)),
        map_of(rows.remove(k)) == map_of(rows).remove(rows[k].0@),
{
    let after = rows.remove(k);
    let gone = rows[k].0@;
    assert(names_distinct(after));
    assert forall|name: Seq<char>|
        map_of(after).contains_key(name) == map_of(rows).remove(gone).contains_key(name) by {
        if exists|i: int| row_of(after, name, i) {
            let i = choose|i: int| row_of(after, name, i);
            let at = if i < k {
                i
            } else {
                i + 1
            };
            assert(row_of(rows, name, at));
            assert(rows[at].0@ != gone);
        }
        if name != gone && exists|i: int| row_of(rows, name, i) {
            let i = choose|i: int| row_of(rows, name, i);
            assert(row_of(after, name, if i < k {
                i
            } else {
                i - 1
            }));
        }
    }
    assert forall|name: Seq<char>| map_of(after).contains_key(name) implies map_of(after)[name]
        == map_of(rows).remove(gone)[name] by {
        let i = choose|i: int| row_of(after, name, i);
        lemma_row(after, i);
        lemma_row(rows, if i < k {
            i
        } else {
            i + 1
        });
    }
    assert(map_of(after) =~= map_of(rows).remove(gone));
}

impl<T> Table<T> {
    /// Every name stands once.
    pub closed spec fn wf(&self) -> bool {
        names_distinct(self.rows@)
    }

    /// The names in their order.
    pub closed spec fn names(&self) -> Seq<Seq<char>> {
        self.rows@.map_values(|row: (String, T)| row.0@)
    }

    /// The names are exactly the keys, each of them once.
    pub proof fn lemma_names(&self)
        requires
            self.wf(),
        ensures
            self.names().no_duplicates(),
            forall|name: Seq<char>| #[trigger]
                self.names().contains(name) <==> self@.contains_key(name),
    {
        let rows = self.rows@;
        assert forall|i: int, j: int|
            0 <= i < self.names().len() && 0 <= j < self.names().len() && i
                != j implies self.names()[i] != self.names()[j] by {
            assert(rows[i].0@ != rows[j].0@);
        }
        assert forall|name: Seq<char>| #[trigger] self.names().contains(name) <==> self@.contains_key(
            name,
        ) by {
            if self.names().contains(name) {
                let i = choose|i: int| 0 <= i < self.names().len() && self.names()[i] == name;
                lemma_row(rows, i);
            }
            if self@.contains_key(name) {
                let i = choose|i: int| row_of(rows, name, i);
                assert(self.names()[i] == name);
            }
        }
    }

    pub fn new() -> (r: Self)
        ensures
            r.wf(),
            r@ == Map::<Seq<char>, T>::empty(),
            r.names() == Seq::<Seq<char>>::empty(),
    {
        let r = Table { rows: Vec::new() };
        proof {
            assert(r@ =~= Map::<Seq<char>, T>::empty());
            assert(r.names() =~= Seq::<Seq<char>>::empty());
        }
        r
    }

    pub fn len(&self) -> (r: usize)
        ensures
            r == self.names().len(),
    {
        self.rows.len()
    }

    /// The name and the value of the row at `i`.
    pub fn row(&self, i: usize) -> (r: (&str, &T))
        requires
            self.wf(),
            i < self.names().len(),
        ensures
            r.0@ == self.names()[i as int],
            self@.contains_key(r.0@),
            *r.1 == self@[r.0@],
    {
        proof {
            lemma_row(self.rows@, i as int);
        }
        (self.rows[i].0.as_str(), &self.rows[i].1)
    }

    fn find(&self, name: &str) -> (r: Option<usize>)
        requires
            self.wf(),
        ensures
            match r {
                Some(i) => i < self.rows@.len() && self.rows@[i as int].0@ == name@
                    && self@.contains_key(name@) && self@[name@] == self.rows@[i as int].1,
                None => !self@.contains_key(name@),
            },
    {
        let mut i: usize = 0;
        while i < self.rows.len()
            invariant
                self.wf(),
                i <= self.rows@.len(),
                forall|j: int| 0 <= j < i ==> (#[trigger] self.rows@[j]).0@ != name@,
            decreases self.rows@.len() - i,
        {
            if same(self.rows[i].0.as_str(), name) {
                proof {
                    lemma_row(self.rows@, i as int);
                }
                return Some(i);
            }
            i += 1;
        }
        proof {
            lemma_absent(self.rows@, name@);
        }
        None
    }

    pub fn get(&self, name: &str) -> (r: Option<&T>)
        requires
            self.wf(),
        ensures
            match r {
                Some(value) => self@.contains_key(name@) && *value == self@[name@],
                None => !self@.contains_key(name@),
            },
    {
        match self.find(name) {
            Some(i) => Some(&self.rows[i].1),
            None => None,
        }
    }

    /// Takes a name out, with its value.
    pub fn take(&mut self, name: &str) -> (r: Option<T>)
        requires
            old(self).wf(),
        ensures
            final(self).wf(),
            final(self)@ == old(self)@.remove(name@),
            match r {
                Some(value) => old(self)@.contains_key(name@) && value == old(self)@[name@],
                None => !old(self)@.contains_key(name@),
            },
    {
        match self.find(name) {
            Some(i) => {
                proof {
                    lemma_removed(self.rows@, i as int);
                }
                let row = self.rows.remove(i);
                Some(row.1)
            },
            None => {
                proof {
                    assert(self@.remove(name@) =~= self@);
                }
                None
            },
        }
    }

    /// Takes the last row out.
    pub fn pop(&mut self) -> (r: Option<(String, T)>)
        requires
            old(self).wf(),
        ensures
            final(self).wf(),
            match r {
                Some((name, value)) => {
                    &&& old(self)@.contains_key(name@)
                    &&& old(self)@[name@] == value
                    &&& final(self)@ == old(self)@.remove(name@)
                    &&& final(self).names() == old(self).names().drop_last()
                    &&& old(self).names().len() > 0
                },
                None => old(self)@ == Map::<Seq<char>, T>::empty() && *final(self) == *old(self),
            },
    {
        let n = self.rows.len();
        if n == 0 {
            proof {
                assert(self@ =~= Map::<Seq<char>, T>::empty());
            }
            return None;
        }
        let ghost before = self.rows@;
        proof {
            lemma_row(before, n as int - 1);
            lemma_removed(before, n as int - 1);
            assert(before.remove(n as int - 1) =~= before.drop_last());
        }
        let row = self.rows.remove(n - 1);
        proof {
            assert(self.names() =~= before.map_values(|row: (String, T)| row.0@).drop_last());
        }
        Some(row)
    }

    /// Sets a name's value; what it had before is gone.
    pub fn insert(&mut self, name: &str, value: T)
        requires
            old(self).wf(),
        ensures
            final(self).wf(),
            final(self)@ == old(self)@.insert(name@, value),
    {
        let ghost before = self@;
        let gone = self.take(name);
        let row = (name.to_owned(), value);
        proof {
            lemma_pushed(self.rows@, row);
            assert(before.remove(name@).insert(name@, value) =~= before.insert(name@, value));
        }
        self.rows.push(row);
    }
}

} // verus!
