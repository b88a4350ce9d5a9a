//! A table of named values, kept in the order of the names.
use crate::text;
use vstd::prelude::*;

verus! {

/// Values by name. No name occurs twice, and names stand in their order.
#[derive(Debug)]
pub struct Table<T> {
    entries: Vec<(String, T)>,
}

/// Whether each name comes before those behind it.
pub open spec fn strictly_sorted(names: Seq<Seq<char>>) -> bool {
    forall|i: int, j: int|
        0 <= i < j < names.len() ==> text::text_less(#[trigger] names[i], #[trigger] names[j])
}

/// The position of `name` among `names` at or after `from`; the length where it is not there.
pub open spec fn place(names: Seq<Seq<char>>, name: Seq<char>, from: int) -> int
    decreases names.len() - from,
{
    if from >= names.len() {
        names.len() as int
    } else if names[from] == name {
        from
    } else {
        place(names, name, from + 1)
    }
}

/// A name that is there is at its place, and not before.
pub proof fn lemma_place(names: Seq<Seq<char>>, name: Seq<char>, from: int)
    requires
        0 <= from <= names.len(),
    ensures
        from <= place(names, name, from) <= names.len(),
        place(names, name, from) < names.len() ==> names[place(names, name, from)] == name,
        forall|j: int| from <= j < place(names, name, from) ==> #[trigger] names[j] != name,
    decreases names.len() - from,
{
    if from < names.len() && names[from] != name {
        lemma_place(names, name, from + 1);
    }
}

impl<T> Table<T> {
    /// The names, in their order.
    pub closed spec fn names(self) -> Seq<Seq<char>> {
        Seq::new(self.entries@.len(), |i: int| self.entries@[i].0@)
    }

    /// The values, in the order of their names.
    pub closed spec fn values(self) -> Seq<T> {
        Seq::new(self.entries@.len(), |i: int| self.entries@[i].1)
    }

    /// Whether names stand in their order, none twice.
    pub open spec fn wf(self) -> bool {
        strictly_sorted(self.names()) && self.names().len() == self.values().len()
    }

    /// The value of every name.
    pub open spec fn map(self) -> Map<Seq<char>, T> {
        Map::new(
            |k: Seq<char>| place(self.names(), k, 0) < self.names().len(),
            |k: Seq<char>| self.values()[place(self.names(), k, 0)],
        )
    }

    /// A table without entries.
    pub fn new() -> (t: Table<T>)
        ensures
            t.wf(),
            t.names() == Seq::<Seq<char>>::empty(),
            t.map() == Map::<Seq<char>, T>::empty(),
    {
        let t = Table { entries: Vec::new() };
        assert(t.names() == Seq::<Seq<char>>::empty());
        assert(t.values() == Seq::<T>::empty());
        assert(t.map() == Map::<Seq<char>, T>::empty());
        t
    }

    /// How many entries there are.
    pub fn len(&self) -> (n: usize)
        ensures
            n == self.names().len(),
            n == self.values().len(),
    {
        self.entries.len()
    }

    /// The name at a position.
    pub fn name_at(&self, i: usize) -> (r: &str)
        requires
            i < self.names().len(),
        ensures
            r@ == self.names()[i as int],
    {
        self.entries[i].0.as_str()
    }

    /// The value at a position.
    pub fn value_at(&self, i: usize) -> (r: &T)
        requires
            i < self.values().len(),
        ensures
            *r == self.values()[i as int],
    {
        &self.entries[i].1
    }

    /// Gives the name at a position another value; what it had is handed back.
    pub fn replace_at(&mut self, i: usize, value: T) -> (r: T)
        requires
            i < old(self).names().len(),
            old(self).wf(),
        ensures
            final(self).wf(),
            final(self).names() == old(self).names(),
            final(self).values() == old(self).values().update(i as int, value),
            r == old(self).values()[i as int],
    {
        let ghost before = *self;
        let mut r = value;
        let ghost given = r;
        std::mem::swap(&mut self.entries[i].1, &mut r);
        assert(self.names() == before.names());
        assert(self.values() == before.values().update(i as int, given));
        r
    }

    /// The first position whose name does not come before `name`.
    fn lower_bound(&self, name: &str) -> (r: usize)
        requires
            self.wf(),
        ensures
            r <= self.entries@.len(),
            forall|j: int| 0 <= j < r ==> text::text_less(#[trigger] self.names()[j], name@),
            r < self.entries@.len() ==> !text::text_less(self.names()[r as int], name@),
            place(self.names(), name@, 0) < self.names().len() <==> r < self.entries@.len()
                && self.names()[r as int] == name@,
            place(self.names(), name@, 0) < self.names().len() ==> place(self.names(), name@, 0)
                == r,
    {
        let mut i: usize = 0;
        while i < self.entries.len() && text::less(&self.entries[i].0, name)
            invariant
                i <= self.entries@.len(),
                self.wf(),
                forall|j: int| 0 <= j < i ==> text::text_less(#[trigger] self.names()[j], name@),
            decreases self.entries@.len() - i,
        {
            assert(self.names()[i as int] == self.entries@[i as int].0@);
            i += 1;
        }
        proof {
            let names = self.names();
            assert(i < names.len() ==> names[i as int] == self.entries@[i as int].0@);
            lemma_place(names, name@, 0);
            let p = place(names, name@, 0);
            text::text_order_is_total(name@, name@);
            if p < names.len() {
                if p < i {
                    assert(text::text_less(names[p], name@));
                } else if p > i {
                    assert(text::text_less(names[i as int], names[p]));
                }
            }
            if i < names.len() && names[i as int] == name@ && p == names.len() {
                assert(names[i as int] != name@);
            }
        }
        i
    }

    /// The value of a name.
    pub fn get(&self, name: &str) -> (r: Option<&T>)
        requires
            self.wf(),
        ensures
            r == (if self.map().contains_key(name@) {
                Some(&self.map()[name@])
            } else {
                None
            }),
    {
        let i: usize = self.lower_bound(name);
        if i < self.entries.len() {
            assert(self.names()[i as int] == self.entries@[i as int].0@);
            if text::same(&self.entries[i].0, name) {
                return Some(&self.entries[i].1);
            }
        }
        None
    }

    /// Whether there is a value of this name.
    pub fn contains(&self, name: &str) -> (r: bool)
        requires
            self.wf(),
        ensures
            r == self.map().contains_key(name@),
    {
        self.get(name).is_some()
    }

    /// Gives a name a value; what it had before is handed back.
    pub fn insert(&mut self, name: &str, value: T) -> (r: Option<T>)
        requires
            old(self).wf(),
        ensures
            final(self).wf(),
            final(self).map() == old(self).map().insert(name@, value),
            r == (if old(self).map().contains_key(name@) {
                Some(old(self).map()[name@])
            } else {
                None
            }),
    {
        let i: usize = self.lower_bound(name);
        let ghost before = *self;
        let found = i < self.entries.len() && text::same(&self.entries[i].0, name);
        assert(i < self.entries@.len() ==> self.names()[i as int] == self.entries@[i as int].0@);
        let mut r: Option<T> = None;
        if found {
            let (_, old_value) = self.entries.remove(i);
            r = Some(old_value);
        }
        self.entries.insert(i, (name.to_owned(), value));
        proof {
            let a = before.names();
            let b = self.names();
            let shift = if found {
                0int
            } else {
                1int
            };
            assert forall|j: int| 0 <= j < b.len() implies #[trigger] b[j] == (if j < i {
                a[j]
            } else if j == i {
                name@
            } else {
                a[j - shift]
            }) && self.values()[j] == (if j < i {
                before.values()[j]
            } else if j == i {
                value
            } else {
                before.values()[j - shift]
            }) by {}
            lemma_inserted(before, *self, name@, value, i as int, shift);
        }
        r
    }

    /// Takes a name and its value out.
    pub fn remove(&mut self, name: &str) -> (r: Option<T>)
        requires
            old(self).wf(),
        ensures
            final(self).wf(),
            final(self).map() == old(self).map().remove(name@),
            r == (if old(self).map().contains_key(name@) {
                Some(old(self).map()[name@])
            } else {
                None
            }),
            r is None ==> *final(self) == *old(self),
    {
        let i: usize = self.lower_bound(name);
        let ghost before = *self;
        assert(i < self.entries@.len() ==> self.names()[i as int] == self.entries@[i as int].0@);
        if i < self.entries.len() && text::same(&self.entries[i].0, name) {
            let (_, value) = self.entries.remove(i);
            proof {
                let a = before.names();
                let b = self.names();
                assert forall|j: int| 0 <= j < b.len() implies #[trigger] b[j] == (if j < i {
                    a[j]
                } else {
                    a[j + 1]
                }) && self.values()[j] == (if j < i {
                    before.values()[j]
                } else {
                    before.values()[j + 1]
                }) by {}
                lemma_removed(before, *self, name@, i as int);
            }
            Some(value)
        } else {
            assert(self.map() =~= self.map().remove(name@));
            None
        }
    }
}

proof fn lemma_sorted_place(names: Seq<Seq<char>>, i: int)
    requires
        strictly_sorted(names),
        0 <= i < names.len(),
    ensures
        place(names, names[i], 0) == i,
{
    lemma_place(names, names[i], 0);
    let p = place(names, names[i], 0);
    text::text_order_is_total(names[i], names[i]);
    if p < i {
        assert(text::text_less(names[p], names[i]));
    } else if p > i {
        assert(names[i] != names[i]);
    }
}

proof fn lemma_inserted<T>(
    before: Table<T>,
    after: Table<T>,
    name: Seq<char>,
    value: T,
    i: int,
    shift: int,
)
    requires
        before.wf(),
        after.names().len() == after.values().len(),
        0 <= i <= before.names().len(),
        shift == 0 || shift == 1,
        after.names().len() == before.names().len() + shift,
        shift == 0 ==> i < before.names().len() && before.names()[i] == name,
        shift == 1 && i < before.names().len() ==> before.names()[i] != name,
        forall|j: int| 0 <= j < i ==> text::text_less(#[trigger] before.names()[j], name),
        i < before.names().len() ==> !text::text_less(before.names()[i], name),
        forall|j: int|
            0 <= j < after.names().len() ==> #[trigger] after.names()[j] == (if j < i {
                before.names()[j]
            } else if j == i {
                name
            } else {
                before.names()[j - shift]
            }) && after.values()[j] == (if j < i {
                before.values()[j]
            } else if j == i {
                value
            } else {
                before.values()[j - shift]
            }),
    ensures
        after.wf(),
        after.map() == before.map().insert(name, value),
{
    let a = before.names();
    let b = after.names();
    // Everything at or behind position `i` comes after `name`, except `name` itself.
    assert forall|j: int| i <= j < a.len() && a[j] != name implies text::text_less(
        name,
        #[trigger] a[j],
    ) by {
        text::text_order_is_total(name, a[i]);
        if j > i {
            assert(text::text_less(a[i], a[j]));
            if a[i] != name {
                text::text_order_is_transitive(name, a[i], a[j]);
            }
        }
    }
    assert forall|j: int| i < j < a.len() implies a[j] != name by {
        text::text_order_is_total(a[j], a[j]);
        assert(text::text_less(a[i], a[j]));
        if a[j] == name {
            assert(!text::text_less(a[i], name));
        }
    }
    assert(strictly_sorted(b)) by {
        assert forall|x: int, y: int| 0 <= x < y < b.len() implies text::text_less(
            #[trigger] b[x],
            #[trigger] b[y],
        ) by {
            if y < i {
                assert(b[x] == a[x] && b[y] == a[y]);
            } else if y == i {
                assert(b[x] == a[x]);
            } else {
                assert(b[y] == a[y - shift]);
                if x < i {
                    assert(b[x] == a[x]);
                } else if x == i {
                    assert(a[y - shift] != name);
                } else {
                    assert(b[x] == a[x - shift]);
                }
            }
        }
    }
    let expected = before.map().insert(name, value);
    assert forall|k: Seq<char>|
        #![trigger after.map().dom().contains(k)]
        #![trigger expected.dom().contains(k)]
        after.map().dom().contains(k) == expected.dom().contains(k) && (
        after.map().dom().contains(k) ==> after.map()[k] == expected[k]) by {
        lemma_place(a, k, 0);
        lemma_place(b, k, 0);
        let p = place(a, k, 0);
        let q = place(b, k, 0);
        if k == name {
            assert(b[i] == name);
            lemma_sorted_place(b, i);
        } else {
            if p < a.len() {
                let r = if p < i {
                    p
                } else {
                    p + shift
                };
                assert(b[r] == k);
                lemma_sorted_place(b, r);
            }
            if q < b.len() {
                let r = if q < i {
                    q
                } else {
                    q - shift
                };
                assert(a[r] == k);
                lemma_sorted_place(a, r);
            }
        }
    }
    assert(after.map() =~= expected);
}

proof fn lemma_removed<T>(before: Table<T>, after: Table<T>, name: Seq<char>, i: int)
    requires
        before.wf(),
        after.names().len() == after.values().len(),
        0 <= i < before.names().len(),
        before.names()[i] == name,
        after.names().len() == before.names().len() - 1,
        forall|j: int|
            0 <= j < after.names().len() ==> #[trigger] after.names()[j] == (if j < i {
                before.names()[j]
            } else {
                before.names()[j + 1]
            }) && after.values()[j] == (if j < i {
                before.values()[j]
            } else {
                before.values()[j + 1]
            }),
    ensures
        after.wf(),
        after.map() == before.map().remove(name),
{
    let a = before.names();
    let b = after.names();
    assert(strictly_sorted(b)) by {
        assert forall|x: int, y: int| 0 <= x < y < b.len() implies text::text_less(
            #[trigger] b[x],
            #[trigger] b[y],
        ) by {
            let u = if x < i {
                x
            } else {
                x + 1
            };
            let v = if y < i {
                y
            } else {
                y + 1
            };
            assert(text::text_less(a[u], a[v]));
        }
    }
    let expected = before.map().remove(name);
    assert forall|k: Seq<char>|
        #![trigger after.map().dom().contains(k)]
        #![trigger expected.dom().contains(k)]
        after.map().dom().contains(k) == expected.dom().contains(k) && (
        after.map().dom().contains(k) ==> after.map()[k] == expected[k]) by {
        lemma_place(a, k, 0);
        lemma_place(b, k, 0);
        let p = place(a, k, 0);
        let q = place(b, k, 0);
        lemma_sorted_place(a, i);
        if q < b.len() {
            let r = if q < i {
                q
            } else {
                q + 1
            };
            assert(a[r] == k);
            lemma_sorted_place(a, r);
        }
        if p < a.len() && p != i {
            let r = if p < i {
                p
            } else {
                p - 1
            };
            assert(b[r] == k);
            lemma_sorted_place(b, r);
        }
    }
    assert(after.map() =~= expected);
}

/// Every entry of a table is in its map, and nothing else is.
pub proof fn table_entries_are_its_map<T>(t: Table<T>, name: Seq<char>)
    requires
        t.wf(),
    ensures
        t.map().contains_key(name) == t.names().contains(name),
        forall|i: int|
            0 <= i < t.names().len() ==> t.map().contains_key(#[trigger] t.names()[i])
                && t.map()[t.names()[i]] == t.values()[i],
{
    lemma_place(t.names(), name, 0);
    assert forall|i: int| 0 <= i < t.names().len() implies t.map().contains_key(
        #[trigger] t.names()[i],
    ) && t.map()[t.names()[i]] == t.values()[i] by {
        lemma_sorted_place(t.names(), i);
    }
}

/// A value that is given to a name is there under it, and every other name keeps its own.
pub proof fn a_given_value_is_there<T>(
    t: &mut Table<T>,
    name: &str,
    value: T,
    r: Option<T>,
    other: Seq<char>,
)
    requires
        call_ensures(Table::<T>::insert, (t, name, value), r),
        old(t).wf(),
        other != name@,
    ensures
        final(t).wf(),
        final(t).map().contains_key(name@) && final(t).map()[name@] == value,
        final(t).map().contains_key(other) == old(t).map().contains_key(other),
        old(t).map().contains_key(other) ==> final(t).map()[other] == old(t).map()[other],
        r is Some <==> old(t).map().contains_key(name@),
{
}

} // verus!
