//! A table from names to values, kept in the order of the names.
//!
//! Everything that is counted, grouped or looked up by name sits in one of
//! these. The order is part of the value: two readers who put the same names
//! in, in whatever order, hold the same table.

use vstd::prelude::*;

use crate::text::{self, Text};

verus! {

/// The value the table holds for a name.
pub open spec fn lookup<V>(rows: Seq<(Text, V)>, name: Text) -> Option<V>
    decreases rows.len(),
{
    if rows.len() == 0 {
        None
    } else if rows[0].0 == name {
        Some(rows[0].1)
    } else {
        lookup(rows.skip(1), name)
    }
}

/// The rows with one name set to a value: replaced where it stands, or added
/// before the first later name.
pub open spec fn put<V>(rows: Seq<(Text, V)>, name: Text, value: V) -> Seq<(Text, V)>
    decreases rows.len(),
{
    if rows.len() == 0 {
        seq![(name, value)]
    } else if rows[0].0 == name {
        seq![(name, value)] + rows.skip(1)
    } else if text::less(name, rows[0].0) {
        seq![(name, value)] + rows
    } else {
        seq![rows[0]] + put(rows.skip(1), name, value)
    }
}

/// Every name once, in order.
pub open spec fn ordered<V>(rows: Seq<(Text, V)>) -> bool {
    forall|i: int, j: int| 0 <= i < j < rows.len() ==> text::less(#[trigger] rows[i].0, #[trigger] rows[j].0)
}

pub proof fn lemma_lookup_found<V>(rows: Seq<(Text, V)>, at: int)
    requires
        ordered(rows),
        0 <= at < rows.len(),
    ensures
        lookup(rows, rows[at].0) == Some(rows[at].1),
    decreases rows.len(),
{
    if at > 0 {
        text::lemma_less_irreflexive(rows[0].0);
        assert(text::less(rows[0].0, rows[at].0));
        assert(ordered(rows.skip(1))) by {
            assert forall|i: int, j: int| 0 <= i < j < rows.skip(1).len() implies text::less(
                #[trigger] rows.skip(1)[i].0,
                #[trigger] rows.skip(1)[j].0,
            ) by {
                assert(text::less(rows[i + 1].0, rows[j + 1].0));
            }
        }
        lemma_lookup_found(rows.skip(1), at - 1);
    }
}

pub proof fn lemma_lookup_missing<V>(rows: Seq<(Text, V)>, name: Text)
    requires
        forall|i: int| 0 <= i < rows.len() ==> #[trigger] rows[i].0 != name,
    ensures
        lookup(rows, name) is None,
    decreases rows.len(),
{
    if rows.len() > 0 {
        assert forall|i: int| 0 <= i < rows.skip(1).len() implies #[trigger] rows.skip(1)[i].0
            != name by {
            assert(rows[i + 1].0 != name);
        }
        lemma_lookup_missing(rows.skip(1), name);
    }
}

/// A name that is looked up with success stands in one of the rows.
pub proof fn lemma_lookup_stands<V>(rows: Seq<(Text, V)>, name: Text) -> (at: int)
    requires
        lookup(rows, name) is Some,
    ensures
        0 <= at < rows.len(),
        rows[at].0 == name,
        lookup(rows, name) == Some(rows[at].1),
    decreases rows.len(),
{
    if rows[0].0 == name {
        0
    } else {
        let later = lemma_lookup_stands(rows.skip(1), name);
        later + 1
    }
}

/// Where the rows before `at` all come before the name, putting works on the
/// rest.
pub proof fn lemma_put_at<V>(rows: Seq<(Text, V)>, name: Text, value: V, at: int)
    requires
        0 <= at <= rows.len(),
        forall|i: int| 0 <= i < at ==> text::less(#[trigger] rows[i].0, name),
    ensures
        put(rows, name, value) == rows.take(at) + put(rows.skip(at), name, value),
    decreases at,
{
    if at == 0 {
        assert(rows.skip(0) =~= rows);
        assert(rows.take(0) + put(rows, name, value) =~= put(rows, name, value));
    } else {
        assert(text::less(rows[0].0, name));
        text::lemma_less_irreflexive(name);
        if text::less(name, rows[0].0) {
            text::lemma_less_transitive(name, rows[0].0, name);
        }
        assert forall|i: int| 0 <= i < at - 1 implies text::less(#[trigger] rows.skip(1)[i].0, name) by {
            assert(text::less(rows[i + 1].0, name));
        }
        lemma_put_at(rows.skip(1), name, value, at - 1);
        assert(rows.skip(1).skip(at - 1) =~= rows.skip(at));
        assert(rows.take(at) =~= seq![rows[0]] + rows.skip(1).take(at - 1));
        assert(seq![rows[0]] + (rows.skip(1).take(at - 1) + put(rows.skip(at), name, value))
            =~= rows.take(at) + put(rows.skip(at), name, value));
    }
}

/// A name that comes after every other is added at the end.
pub proof fn lemma_put_last<V>(rows: Seq<(Text, V)>, name: Text, value: V)
    requires
        forall|i: int| 0 <= i < rows.len() ==> text::less(#[trigger] rows[i].0, name),
    ensures
        put(rows, name, value) == rows.push((name, value)),
{
    lemma_put_at(rows, name, value, rows.len() as int);
    assert(rows.skip(rows.len() as int) =~= seq![]);
    assert(rows.take(rows.len() as int) + seq![(name, value)] =~= rows.push((name, value)));
}

/// Setting a name twice leaves what was set last.
pub proof fn lemma_put_put<V>(rows: Seq<(Text, V)>, name: Text, first: V, second: V)
    ensures
        put(put(rows, name, first), name, second) == put(rows, name, second),
    decreases rows.len(),
{
    if rows.len() == 0 {
        assert(seq![(name, first)].skip(1) =~= seq![]);
        assert(seq![(name, second)] + Seq::<(Text, V)>::empty() =~= seq![(name, second)]);
    } else if rows[0].0 == name {
        assert((seq![(name, first)] + rows.skip(1)).skip(1) =~= rows.skip(1));
    } else if text::less(name, rows[0].0) {
        assert((seq![(name, first)] + rows).skip(1) =~= rows);
    } else {
        lemma_put_put(rows.skip(1), name, first, second);
        assert((seq![rows[0]] + put(rows.skip(1), name, first)).skip(1) =~= put(
            rows.skip(1),
            name,
            first,
        ));
    }
}

/// A value that was put is found again, and every other name keeps its own.
pub proof fn lemma_put_lookup<V>(rows: Seq<(Text, V)>, name: Text, value: V, other: Text)
    ensures
        lookup(put(rows, name, value), other) == (if other == name {
            Some(value)
        } else {
            lookup(rows, other)
        }),
    decreases rows.len(),
{
    let after = put(rows, name, value);
    if rows.len() == 0 {
        assert(after.skip(1) =~= rows);
    } else if rows[0].0 == name {
        assert(after.skip(1) =~= rows.skip(1));
    } else if text::less(name, rows[0].0) {
        assert(after.skip(1) =~= rows);
    } else {
        lemma_put_lookup(rows.skip(1), name, value, other);
        assert(after.skip(1) =~= put(rows.skip(1), name, value));
    }
}

/// Putting keeps the names once each and in order.
pub proof fn lemma_put_ordered<V>(rows: Seq<(Text, V)>, name: Text, value: V)
    requires
        ordered(rows),
    ensures
        ordered(put(rows, name, value)),
        forall|i: int|
            0 <= i < put(rows, name, value).len() ==> (#[trigger] put(rows, name, value)[i].0 == name
                || exists|j: int| 0 <= j < rows.len() && rows[j].0 == put(rows, name, value)[i].0),
    decreases rows.len(),
{
    let after = put(rows, name, value);
    if rows.len() == 0 {
    } else if rows[0].0 == name {
        assert forall|i: int, j: int| 0 <= i < j < after.len() implies text::less(
            #[trigger] after[i].0,
            #[trigger] after[j].0,
        ) by {
            assert(text::less(rows[i].0, rows[j].0));
        }
        assert forall|i: int| 0 <= i < after.len() implies (#[trigger] after[i].0 == name || exists|
            j: int,
        |
            0 <= j < rows.len() && rows[j].0 == after[i].0) by {
            assert(rows[i].0 == after[i].0);
        }
    } else if text::less(name, rows[0].0) {
        assert forall|i: int, j: int| 0 <= i < j < after.len() implies text::less(
            #[trigger] after[i].0,
            #[trigger] after[j].0,
        ) by {
            if i == 0 {
                if j > 1 {
                    assert(text::less(rows[0].0, rows[j - 1].0));
                    text::lemma_less_transitive(name, rows[0].0, rows[j - 1].0);
                }
            } else {
                assert(text::less(rows[i - 1].0, rows[j - 1].0));
            }
        }
        assert forall|i: int| 0 <= i < after.len() implies (#[trigger] after[i].0 == name || exists|
            j: int,
        |
            0 <= j < rows.len() && rows[j].0 == after[i].0) by {
            if i > 0 {
                assert(rows[i - 1].0 == after[i].0);
            }
        }
    } else {
        let rest = rows.skip(1);
        assert forall|i: int, j: int| 0 <= i < j < rest.len() implies text::less(
            #[trigger] rest[i].0,
            #[trigger] rest[j].0,
        ) by {
            assert(text::less(rows[i + 1].0, rows[j + 1].0));
        }
        lemma_put_ordered(rest, name, value);
        let inner = put(rest, name, value);
        text::lemma_less_total(name, rows[0].0);
        assert forall|i: int, j: int| 0 <= i < j < after.len() implies text::less(
            #[trigger] after[i].0,
            #[trigger] after[j].0,
        ) by {
            if i == 0 {
                assert(after[j] == inner[j - 1]);
                if inner[j - 1].0 != name {
                    let k = choose|k: int| 0 <= k < rest.len() && rest[k].0 == inner[j - 1].0;
                    assert(text::less(rows[0].0, rows[k + 1].0));
                }
            } else {
                assert(after[i] == inner[i - 1] && after[j] == inner[j - 1]);
                assert(text::less(inner[i - 1].0, inner[j - 1].0));
            }
        }
        assert forall|i: int| 0 <= i < after.len() implies (#[trigger] after[i].0 == name || exists|
            j: int,
        |
            0 <= j < rows.len() && rows[j].0 == after[i].0) by {
            if i == 0 {
                assert(rows[0].0 == after[0].0);
            } else {
                assert(after[i] == inner[i - 1]);
                if inner[i - 1].0 != name {
                    let k = choose|k: int| 0 <= k < rest.len() && rest[k].0 == inner[i - 1].0;
                    assert(rows[k + 1].0 == after[i].0);
                }
            }
        }
    }
}

proof fn lemma_rest_ordered<V>(rows: Seq<(Text, V)>)
    requires
        ordered(rows),
        rows.len() > 0,
    ensures
        ordered(rows.skip(1)),
        forall|i: int| 0 <= i < rows.skip(1).len() ==> text::less(rows[0].0, #[trigger] rows.skip(1)[i].0),
{
    assert forall|i: int, j: int| 0 <= i < j < rows.skip(1).len() implies text::less(
        #[trigger] rows.skip(1)[i].0,
        #[trigger] rows.skip(1)[j].0,
    ) by {
        assert(text::less(rows[i + 1].0, rows[j + 1].0));
    }
    assert forall|i: int| 0 <= i < rows.skip(1).len() implies text::less(
        rows[0].0,
        #[trigger] rows.skip(1)[i].0,
    ) by {
        assert(text::less(rows[0].0, rows[i + 1].0));
    }
}

/// A name that comes before every row is not found.
proof fn lemma_before_all<V>(rows: Seq<(Text, V)>, name: Text)
    requires
        forall|i: int| 0 <= i < rows.len() ==> text::less(name, #[trigger] rows[i].0),
    ensures
        lookup(rows, name) is None,
{
    assert forall|i: int| 0 <= i < rows.len() implies #[trigger] rows[i].0 != name by {
        text::lemma_less_irreflexive(name);
    }
    lemma_lookup_missing(rows, name);
}

/// Two tables that answer alike are the same table.
pub proof fn lemma_same_table<V>(a: Seq<(Text, V)>, b: Seq<(Text, V)>)
    requires
        ordered(a),
        ordered(b),
        forall|name: Text| #[trigger] lookup(a, name) == lookup(b, name),
    ensures
        a == b,
    decreases a.len(),
{
    if a.len() == 0 {
        if b.len() > 0 {
            lemma_lookup_found(b, 0);
            assert(lookup(a, b[0].0) is None);
        }
        assert(a =~= b);
    } else if b.len() == 0 {
        lemma_lookup_found(a, 0);
        assert(lookup(b, a[0].0) is None);
    } else {
        lemma_rest_ordered(a);
        lemma_rest_ordered(b);
        lemma_lookup_found(a, 0);
        lemma_lookup_found(b, 0);
        text::lemma_less_total(a[0].0, b[0].0);
        if a[0].0 != b[0].0 {
            if text::less(a[0].0, b[0].0) {
                assert forall|i: int| 0 <= i < b.len() implies text::less(
                    a[0].0,
                    #[trigger] b[i].0,
                ) by {
                    if i > 0 {
                        assert(text::less(b[0].0, b[i].0));
                        text::lemma_less_transitive(a[0].0, b[0].0, b[i].0);
                    }
                }
                lemma_before_all(b, a[0].0);
            } else {
                assert forall|i: int| 0 <= i < a.len() implies text::less(
                    b[0].0,
                    #[trigger] a[i].0,
                ) by {
                    if i > 0 {
                        assert(text::less(a[0].0, a[i].0));
                        text::lemma_less_transitive(b[0].0, a[0].0, a[i].0);
                    }
                }
                lemma_before_all(a, b[0].0);
                assert(lookup(a, b[0].0) is None);
            }
        }
        assert forall|name: Text| #[trigger] lookup(a.skip(1), name) == lookup(
            b.skip(1),
            name,
        ) by {
            assert(lookup(a, name) == lookup(b, name));
            if name == a[0].0 {
                lemma_before_all(a.skip(1), name);
                lemma_before_all(b.skip(1), name);
            }
        }
        lemma_same_table(a.skip(1), b.skip(1));
        assert(a =~= seq![a[0]] + a.skip(1));
        assert(b =~= seq![b[0]] + b.skip(1));
    }
}

/// What the first rows answer, with one more.
pub proof fn lemma_take_one_more<V>(rows: Seq<(Text, V)>, n: nat, name: Text)
    requires
        ordered(rows),
        0 < n <= rows.len(),
    ensures
        lookup(rows.take(n as int), name) == (if name == rows[n - 1].0 {
            Some(rows[n - 1].1)
        } else {
            lookup(rows.take(n - 1), name)
        }),
        lookup(rows.take(n - 1), rows[n - 1].0) is None,
{
    let front = rows.take(n - 1);
    assert(rows.take(n as int) =~= front.push(rows[n - 1]));
    lemma_lookup_push(front, rows[n - 1], name);
    assert forall|i: int| 0 <= i < front.len() implies #[trigger] front[i].0 != rows[n - 1].0 by {
        assert(text::less(rows[i].0, rows[n - 1].0));
        text::lemma_less_irreflexive(rows[i].0);
    }
    lemma_lookup_missing(front, rows[n - 1].0);
}

/// Setting a name to what it holds changes nothing.
pub proof fn lemma_put_same<V>(rows: Seq<(Text, V)>, name: Text, value: V)
    requires
        ordered(rows),
        lookup(rows, name) == Some(value),
    ensures
        put(rows, name, value) == rows,
{
    let after = put(rows, name, value);
    lemma_put_ordered(rows, name, value);
    assert forall|other: Text| #[trigger] lookup(after, other) == lookup(rows, other) by {
        lemma_put_lookup(rows, name, value, other);
    }
    lemma_same_table(after, rows);
}

/// Names with a value each, once each and in order.
#[derive(Debug)]
pub struct Table<V> {
    rows: Vec<(String, V)>,
}

/// A set of names.
pub type Names = Table<()>;

impl<V: DeepView> DeepView for Table<V> {
    type V = Seq<(Text, V::V)>;

    closed spec fn deep_view(&self) -> Seq<(Text, V::V)> {
        self.rows.deep_view()
    }
}

proof fn lemma_rows_ordered<V: DeepView>(rows: Seq<(String, V)>)
    requires
        ordered(Seq::new(rows.len(), |i: int| rows[i].deep_view())),
    ensures
        forall|i: int, j: int|
            0 <= i < j < rows.len() ==> text::less(#[trigger] rows[i].0@, #[trigger] rows[j].0@),
{
    let shown = Seq::new(rows.len(), |i: int| rows[i].deep_view());
    assert forall|i: int, j: int| 0 <= i < j < rows.len() implies text::less(
        #[trigger] rows[i].0@,
        #[trigger] rows[j].0@,
    ) by {
        assert(text::less(shown[i].0, shown[j].0));
    }
}

impl<V> Table<V> {
    #[verifier::type_invariant]
    spec fn in_order(self) -> bool {
        forall|i: int, j: int|
            0 <= i < j < self.rows@.len() ==> text::less(
                #[trigger] self.rows@[i].0@,
                #[trigger] self.rows@[j].0@,
            )
    }
}

impl<V: DeepView> Table<V> {
    proof fn lemma_ordered(self)
        requires
            self.in_order(),
        ensures
            ordered(self.deep_view()),
    {
        let rows = self.deep_view();
        assert forall|i: int, j: int| 0 <= i < j < rows.len() implies text::less(
            #[trigger] rows[i].0,
            #[trigger] rows[j].0,
        ) by {
            assert(text::less(self.rows@[i].0@, self.rows@[j].0@));
        }
    }

    pub fn new() -> (table: Table<V>)
        ensures
            table.deep_view() == Seq::<(Text, V::V)>::empty(),
    {
        let table = Table { rows: Vec::new() };
        assert(table.deep_view() =~= Seq::<(Text, V::V)>::empty());
        table
    }

    pub fn len(&self) -> (n: usize)
        ensures
            n == self.deep_view().len(),
            ordered(self.deep_view()),
    {
        proof {
            use_type_invariant(self);
            self.lemma_ordered();
        }
        self.rows.len()
    }

    pub fn is_empty(&self) -> (r: bool)
        ensures
            r == (self.deep_view().len() == 0),
    {
        self.rows.len() == 0
    }

    pub fn name_at(&self, i: usize) -> (name: &String)
        requires
            i < self.deep_view().len(),
        ensures
            name@ == self.deep_view()[i as int].0,
    {
        &self.rows[i].0
    }

    pub fn value_at(&self, i: usize) -> (value: &V)
        requires
            i < self.deep_view().len(),
        ensures
            value.deep_view() == self.deep_view()[i as int].1,
    {
        &self.rows[i].1
    }

    /// Every name, in order.
    pub fn names(&self) -> (out: Vec<String>)
        ensures
            out.deep_view() == Seq::new(
                self.deep_view().len(),
                |i: int| self.deep_view()[i].0,
            ),
    {
        let ghost all = Seq::new(self.deep_view().len(), |i: int| self.deep_view()[i].0);
        let mut out: Vec<String> = Vec::new();
        let end: usize = self.rows.len();
        let mut i: usize = 0;
        while i < end
            invariant
                i <= end == self.deep_view().len(),
                all == Seq::new(self.deep_view().len(), |i: int| self.deep_view()[i].0),
                out.deep_view() == all.take(i as int),
            decreases end - i,
        {
            text::push(&mut out, self.name_at(i).clone());
            assert(out.deep_view() =~= all.take(i + 1));
            i += 1;
        }
        assert(out.deep_view() =~= all);
        out
    }

    /// The first row whose name does not come before the given one.
    fn place(&self, name: &str) -> (at: usize)
        ensures
            at <= self.deep_view().len(),
            forall|i: int| 0 <= i < at ==> text::less(#[trigger] self.deep_view()[i].0, name@),
            forall|i: int|
                at <= i < self.deep_view().len() ==> !text::less(#[trigger] self.deep_view()[i].0, name@),
    {
        proof {
            use_type_invariant(self);
            self.lemma_ordered();
        }
        let ghost rows = self.deep_view();
        let mut low: usize = 0;
        let mut high: usize = self.rows.len();
        while low < high
            invariant
                low <= high <= self.rows.len(),
                rows == self.rows.deep_view(),
                rows == self.deep_view(),
                ordered(rows),
                forall|i: int| 0 <= i < low ==> text::less(#[trigger] rows[i].0, name@),
                forall|i: int| high <= i < rows.len() ==> !text::less(#[trigger] rows[i].0, name@),
            decreases high - low,
        {
            let mid: usize = low + (high - low) / 2;
            if text::is_less(self.rows[mid].0.as_str(), name) {
                assert forall|i: int| 0 <= i < mid + 1 implies text::less(#[trigger] rows[i].0, name@) by {
                    if i < mid {
                        text::lemma_less_transitive(rows[i].0, rows[mid as int].0, name@);
                    }
                }
                low = mid + 1;
            } else {
                assert forall|i: int| mid <= i < rows.len() implies !text::less(
                    #[trigger] rows[i].0,
                    name@,
                ) by {
                    if i > mid && text::less(rows[i].0, name@) {
                        text::lemma_less_transitive(rows[mid as int].0, rows[i].0, name@);
                    }
                }
                high = mid;
            }
        }
        low
    }

    pub fn get(&self, name: &str) -> (value: Option<&V>)
        ensures
            match value {
                Some(v) => lookup(self.deep_view(), name@) == Some(v.deep_view()),
                None => lookup(self.deep_view(), name@) is None,
            },
    {
        proof {
            use_type_invariant(self);
            self.lemma_ordered();
        }
        let at: usize = self.place(name);
        let ghost rows = self.deep_view();
        if at < self.rows.len() && text::same(self.rows[at].0.as_str(), name) {
            proof {
                lemma_lookup_found(rows, at as int);
            }
            return Some(&self.rows[at].1);
        }
        proof {
            assert forall|i: int| 0 <= i < rows.len() implies #[trigger] rows[i].0 != name@ by {
                if i < at {
                    text::lemma_less_irreflexive(name@);
                } else if i > at && rows[i].0 == name@ {
                    assert(text::less(rows[at as int].0, rows[i].0));
                }
            }
            lemma_lookup_missing(rows, name@);
        }
        None
    }

    pub fn contains(&self, name: &str) -> (r: bool)
        ensures
            r == (lookup(self.deep_view(), name@) is Some),
    {
        self.get(name).is_some()
    }

    /// Sets a name to a value, and hands back what it held.
    pub fn insert(&mut self, name: String, value: V) -> (held: Option<V>)
        ensures
            final(self).deep_view() == put(old(self).deep_view(), name@, value.deep_view()),
            match held {
                Some(v) => lookup(old(self).deep_view(), name@) == Some(v.deep_view()),
                None => lookup(old(self).deep_view(), name@) is None,
            },
    {
        proof {
            use_type_invariant(&*self);
            self.lemma_ordered();
        }
        let ghost before = self.deep_view();
        let ghost shown = value.deep_view();
        let at: usize = self.place(name.as_str());
        let mut rows: Vec<(String, V)> = Vec::new();
        std::mem::swap(&mut rows, &mut self.rows);
        proof {
            lemma_put_at(before, name@, shown, at as int);
            lemma_put_ordered(before, name@, shown);
        }
        if at < rows.len() && text::same(rows[at].0.as_str(), name.as_str()) {
            proof {
                lemma_lookup_found(before, at as int);
                assert(before.skip(at as int).skip(1) =~= before.skip(at + 1));
            }
            let mut held = value;
            std::mem::swap(&mut rows[at].1, &mut held);
            assert(rows.deep_view() =~= put(before, name@, shown));
            proof {
                lemma_rows_ordered(rows@);
            }
            self.rows = rows;
            return Some(held);
        }
        proof {
            assert forall|i: int| 0 <= i < before.len() implies #[trigger] before[i].0 != name@ by {
                if i < at {
                    text::lemma_less_irreflexive(name@);
                } else if i > at && before[i].0 == name@ {
                    assert(text::less(before[at as int].0, before[i].0));
                }
            }
            lemma_lookup_missing(before, name@);
            if at < before.len() {
                text::lemma_less_total(name@, before[at as int].0);
            }
        }
        let ghost key = name@;
        rows.insert(at, (name, value));
        assert(rows.deep_view() =~= put(before, key, shown));
        proof {
            lemma_rows_ordered(rows@);
        }
        self.rows = rows;
        None
    }
}

impl<V: DeepView> Default for Table<V> {
    fn default() -> (table: Table<V>)
        ensures
            table.deep_view() == Seq::<(Text, V::V)>::empty(),
    {
        Table::new()
    }
}

/// The list under a name, or an empty one.
pub open spec fn items_at<V>(lists: Seq<(Text, Seq<V>)>, name: Text) -> Seq<V> {
    match lookup(lists, name) {
        Some(list) => list,
        None => seq![],
    }
}

/// The lists with one more item under a name.
pub open spec fn with_item<V>(lists: Seq<(Text, Seq<V>)>, name: Text, item: V) -> Seq<
    (Text, Seq<V>),
> {
    put(lists, name, items_at(lists, name).push(item))
}

pub(crate) fn add_item<V: DeepView>(lists: &mut Table<Vec<V>>, name: &str, item: V)
    ensures
        final(lists).deep_view() == with_item(old(lists).deep_view(), name@, item.deep_view()),
{
    let ghost before = lists.deep_view();
    let none: Vec<V> = Vec::new();
    assert(none.deep_view() =~= seq![]);
    let mut list: Vec<V> = match lists.insert(name.to_owned(), none) {
        Some(held) => held,
        None => Vec::new(),
    };
    assert(list.deep_view() =~= items_at(before, name@));
    text::push(&mut list, item);
    proof {
        lemma_put_put(before, name@, seq![], list.deep_view());
    }
    let _ = lists.insert(name.to_owned(), list);
}

/// How much is counted under a name.
pub open spec fn tally_at(counts: Seq<(Text, u64)>, name: Text) -> u64 {
    match lookup(counts, name) {
        Some(n) => n,
        None => 0,
    }
}

/// The counts with one more under a name, as far as they can be counted.
pub open spec fn with_one(counts: Seq<(Text, u64)>, name: Text) -> Seq<(Text, u64)> {
    put(counts, name, more(tally_at(counts, name), 1))
}

/// A sum, or the largest number there is.
pub open spec fn more(a: u64, b: u64) -> u64 {
    if a + b <= u64::MAX {
        (a + b) as u64
    } else {
        u64::MAX
    }
}

pub(crate) fn sum(a: u64, b: u64) -> (n: u64)
    ensures
        n == more(a, b),
{
    if a <= u64::MAX - b {
        a + b
    } else {
        u64::MAX
    }
}

pub(crate) fn count_one(counts: &mut Table<u64>, name: &str)
    ensures
        final(counts).deep_view() == with_one(old(counts).deep_view(), name@),
{
    let held: u64 = match counts.get(name) {
        Some(n) => *n,
        None => 0,
    };
    let _ = counts.insert(name.to_owned(), sum(held, 1));
}

/// Where a row is put at the end, an earlier row of that name is still found.
pub broadcast proof fn lemma_lookup_push<V>(rows: Seq<(Text, V)>, row: (Text, V), name: Text)
    ensures
        #[trigger] lookup(rows.push(row), name) == (match lookup(rows, name) {
            Some(v) => Some(v),
            None => if row.0 == name {
                Some(row.1)
            } else {
                None
            },
        }),
    decreases rows.len(),
{
    let after = rows.push(row);
    if rows.len() == 0 {
        assert(after.skip(1) =~= rows);
    } else {
        assert(after.skip(1) =~= rows.skip(1).push(row));
        lemma_lookup_push(rows.skip(1), row, name);
    }
}

}
