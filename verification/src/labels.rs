//! Labels: names with values, each name at most once, in the order of the names.

use crate::text::chars_of;
use crate::text::same;
use vstd::prelude::*;

verus! {

/// Whether a text comes before another: at the first character that tells them
/// apart, or because it ends there.
pub open spec fn comes_before(a: Seq<char>, b: Seq<char>) -> bool
    decreases a.len(),
{
    if b.len() == 0 {
        false
    } else if a.len() == 0 {
        true
    } else if a[0] != b[0] {
        a[0] < b[0]
    } else {
        comes_before(a.skip(1), b.skip(1))
    }
}

proof fn lemma_not_before_itself(a: Seq<char>)
    ensures
        !comes_before(a, a),
    decreases a.len(),
{
    if a.len() > 0 {
        lemma_not_before_itself(a.skip(1));
    }
}

proof fn lemma_before_is_transitive(a: Seq<char>, b: Seq<char>, c: Seq<char>)
    requires
        comes_before(a, b),
        comes_before(b, c),
    ensures
        comes_before(a, c),
    decreases a.len(),
{
    if a.len() > 0 && a[0] == b[0] && b[0] == c[0] {
        lemma_before_is_transitive(a.skip(1), b.skip(1), c.skip(1));
    }
}

/// How a text lies to another.
enum Place {
    Before,
    Same,
    After,
}

fn place_of(a: &str, b: &str) -> (r: Place)
    ensures
        match r {
            Place::Before => comes_before(a@, b@),
            Place::Same => a@ == b@,
            Place::After => comes_before(b@, a@),
        },
{
    let x = chars_of(a);
    let y = chars_of(b);
    let mut i: usize = 0;
    assert(x@.skip(0) =~= x@);
    assert(y@.skip(0) =~= y@);
    while i < x.len() && i < y.len() && x[i] == y[i]
        invariant
            x@ == a@,
            y@ == b@,
            i <= x@.len(),
            i <= y@.len(),
            x@.take(i as int) =~= y@.take(i as int),
            comes_before(a@, b@) == comes_before(x@.skip(i as int), y@.skip(i as int)),
            comes_before(b@, a@) == comes_before(y@.skip(i as int), x@.skip(i as int)),
        decreases x@.len() - i,
    {
        assert(x@.skip(i as int).skip(1) =~= x@.skip(i + 1));
        assert(y@.skip(i as int).skip(1) =~= y@.skip(i + 1));
        i += 1;
    }
    if i == x.len() {
        if i == y.len() {
            assert(x@.take(i as int) =~= x@);
            assert(y@.take(i as int) =~= y@);
            return Place::Same;
        }
        return Place::Before;
    }
    if i == y.len() || y[i] < x[i] {
        return Place::After;
    }
    Place::Before
}

/// A set of labels.
#[derive(Debug, PartialEq, Eq)]
pub struct Labels {
    pairs: Vec<(String, String)>,
}

/// The names of labels.
spec fn names_of(pairs: Seq<(String, String)>) -> Seq<Seq<char>> {
    pairs.map_values(|p: (String, String)| p.0@)
}

/// Whether every name comes before those that follow it, so that none occurs
/// twice.
pub open spec fn ascending(names: Seq<Seq<char>>) -> bool {
    forall|i: int, j: int|
        0 <= i < j < names.len() ==> comes_before(#[trigger] names[i], #[trigger] names[j])
}

/// The value of each name.
spec fn values_by_name(pairs: Seq<(String, String)>) -> Map<Seq<char>, Seq<char>> {
    Map::new(
        |name: Seq<char>| names_of(pairs).contains(name),
        |name: Seq<char>| pairs[names_of(pairs).index_of(name)].1@,
    )
}

proof fn lemma_name_at(pairs: Seq<(String, String)>, i: int)
    requires
        ascending(names_of(pairs)),
        0 <= i < pairs.len(),
    ensures
        names_of(pairs).contains(pairs[i].0@),
        names_of(pairs).index_of(pairs[i].0@) == i,
        values_by_name(pairs)[pairs[i].0@] == pairs[i].1@,
{
    let names = names_of(pairs);
    assert(names[i] == pairs[i].0@);
    assert(names.contains(names[i]));
    let j = names.index_of(names[i]);
    lemma_not_before_itself(names[i]);
}

/// One pair more, at its place.
proof fn lemma_inserted(
    old_pairs: Seq<(String, String)>,
    pairs: Seq<(String, String)>,
    at: int,
    name: Seq<char>,
)
    requires
        ascending(names_of(old_pairs)),
        0 <= at <= old_pairs.len(),
        pairs.len() == old_pairs.len() + 1,
        pairs[at].0@ == name,
        pairs == old_pairs.insert(at, pairs[at]),
        forall|k: int| 0 <= k < at ==> comes_before(#[trigger] old_pairs[k].0@, name),
        forall|k: int|
            at <= k < old_pairs.len() ==> comes_before(name, #[trigger] old_pairs[k].0@),
    ensures
        ascending(names_of(pairs)),
        values_by_name(pairs) == values_by_name(old_pairs).insert(name, pairs[at].1@),
{
    let before = names_of(old_pairs);
    let after = names_of(pairs);
    assert forall|i: int, j: int| 0 <= i < j < after.len() implies comes_before(
        #[trigger] after[i],
        #[trigger] after[j],
    ) by {
        let from = |k: int|
            if k < at {
                k
            } else {
                k - 1
            };
        if i != at {
            assert(after[i] == before[from(i)]);
            assert(before[from(i)] == old_pairs[from(i)].0@);
        }
        if j != at {
            assert(after[j] == before[from(j)]);
            assert(before[from(j)] == old_pairs[from(j)].0@);
        }
    }
    let m = values_by_name(pairs);
    let n = values_by_name(old_pairs).insert(name, pairs[at].1@);
    lemma_name_at(pairs, at);
    assert forall|k: Seq<char>| m.contains_key(k) <==> n.contains_key(k) by {
        if after.contains(k) && k != name {
            let i = after.index_of(k);
            let j = if i < at {
                i
            } else {
                i - 1
            };
            assert(before[j] == k);
        }
        if before.contains(k) {
            let j = before.index_of(k);
            let i = if j < at {
                j
            } else {
                j + 1
            };
            assert(after[i] == k);
        }
    }
    assert forall|k: Seq<char>| m.contains_key(k) implies m[k] == n[k] by {
        if k != name {
            let i = after.index_of(k);
            let j = if i < at {
                i
            } else {
                i - 1
            };
            assert(pairs[i] == old_pairs[j]);
            assert(before[j] == k);
            lemma_name_at(old_pairs, j);
            lemma_name_at(pairs, i);
        }
    }
    assert(m =~= n);
}

/// Another value for a name that has one.
proof fn lemma_updated(
    old_pairs: Seq<(String, String)>,
    pairs: Seq<(String, String)>,
    at: int,
)
    requires
        ascending(names_of(old_pairs)),
        0 <= at < old_pairs.len(),
        pairs == old_pairs.update(at, pairs[at]),
        pairs[at].0@ == old_pairs[at].0@,
    ensures
        ascending(names_of(pairs)),
        values_by_name(pairs) == values_by_name(old_pairs).insert(pairs[at].0@, pairs[at].1@),
{
    assert(names_of(pairs) =~= names_of(old_pairs));
    let m = values_by_name(pairs);
    let n = values_by_name(old_pairs).insert(pairs[at].0@, pairs[at].1@);
    lemma_name_at(pairs, at);
    assert forall|k: Seq<char>| m.contains_key(k) implies m[k] == n[k] by {
        let i = names_of(pairs).index_of(k);
        if i != at {
            assert(names_of(pairs)[i] == k);
            assert(pairs[i] == old_pairs[i]);
            assert(k != pairs[at].0@);
        }
    }
    assert(m =~= n);
}

impl View for Labels {
    type V = Map<Seq<char>, Seq<char>>;

    /// The value of each name.
    closed spec fn view(&self) -> Map<Seq<char>, Seq<char>> {
        values_by_name(self.pairs@)
    }
}

impl Labels {
    /// The names are in order, so none occurs twice.
    #[verifier::type_invariant]
    spec fn ordered(&self) -> bool {
        ascending(names_of(self.pairs@))
    }

    /// The names, in order.
    pub closed spec fn names(&self) -> Seq<Seq<char>> {
        names_of(self.pairs@)
    }

    /// No labels.
    pub fn new() -> (r: Self)
        ensures
            r@ == Map::<Seq<char>, Seq<char>>::empty(),
            r.names() == Seq::<Seq<char>>::empty(),
    {
        let r = Labels { pairs: Vec::new() };
        assert(r.names() =~= Seq::<Seq<char>>::empty());
        assert(r@ =~= Map::<Seq<char>, Seq<char>>::empty());
        r
    }

    /// Gives a name a value, in place of the one that it had.
    pub fn insert(&mut self, name: String, value: String)
        ensures
            final(self)@ == old(self)@.insert(name@, value@),
    {
        proof {
            use_type_invariant(&*self);
        }
        let mut pairs: Vec<(String, String)> = Vec::new();
        std::mem::swap(&mut pairs, &mut self.pairs);
        let ghost before = pairs@;
        let mut i: usize = 0;
        while i < pairs.len()
            invariant
                i <= pairs@.len(),
                pairs@ == before,
                ascending(names_of(before)),
                forall|k: int| 0 <= k < i ==> comes_before(#[trigger] before[k].0@, name@),
            ensures
                i <= pairs@.len(),
                pairs@ == before,
                forall|k: int| 0 <= k < i ==> comes_before(#[trigger] before[k].0@, name@),
                i < pairs@.len() ==> before[i as int].0@ == name@ || comes_before(
                    name@,
                    before[i as int].0@,
                ),
            decreases pairs@.len() - i,
        {
            match place_of(pairs[i].0.as_str(), name.as_str()) {
                Place::Before => {
                    i += 1;
                },
                _ => {
                    break;
                },
            }
        }
        proof {
            if i < before.len() && before[i as int].0@ != name@ {
                assert forall|k: int| i <= k < before.len() implies comes_before(
                    name@,
                    #[trigger] before[k].0@,
                ) by {
                    if k > i {
                        assert(comes_before(names_of(before)[i as int], names_of(before)[k]));
                        lemma_before_is_transitive(name@, before[i as int].0@, before[k].0@);
                    }
                }
            }
        }
        if i < pairs.len() && same(pairs[i].0.as_str(), name.as_str()) {
            pairs[i] = (name, value);
            proof {
                lemma_updated(before, pairs@, i as int);
            }
        } else {
            pairs.insert(i, (name, value));
            proof {
                lemma_inserted(before, pairs@, i as int, name@);
            }
        }
        self.pairs = pairs;
    }

    /// How many labels there are.
    pub fn len(&self) -> (r: usize)
        ensures
            r == self.names().len(),
            r == 0 <==> self@ == Map::<Seq<char>, Seq<char>>::empty(),
            ascending(self.names()),
    {
        proof {
            use_type_invariant(self);
            if self.pairs@.len() > 0 {
                assert(self.names().contains(self.names()[0]));
                assert(self@.contains_key(self.names()[0]));
            } else {
                assert(self@ =~= Map::<Seq<char>, Seq<char>>::empty());
            }
        }
        self.pairs.len()
    }

    /// The label at an index.
    pub fn at(&self, i: usize) -> (r: (&str, &str))
        requires
            i < self.names().len(),
        ensures
            r.0@ == self.names()[i as int],
            self@.contains_key(r.0@),
            r.1@ == self@[r.0@],
    {
        proof {
            use_type_invariant(self);
            lemma_name_at(self.pairs@, i as int);
        }
        (self.pairs[i].0.as_str(), self.pairs[i].1.as_str())
    }

    /// A copy.
    pub fn copy(&self) -> (r: Self)
        ensures
            r@ == self@,
            r.names() == self.names(),
    {
        proof {
            use_type_invariant(self);
        }
        let mut pairs: Vec<(String, String)> = Vec::new();
        let mut i: usize = 0;
        while i < self.pairs.len()
            invariant
                i <= self.pairs@.len(),
                pairs@ =~= self.pairs@.take(i as int),
            decreases self.pairs@.len() - i,
        {
            let p = &self.pairs[i];
            pairs.push((p.0.clone(), p.1.clone()));
            i += 1;
        }
        assert(self.pairs@.take(i as int) =~= self.pairs@);
        Labels { pairs }
    }
}

/// Names are totally ordered: of two different ones, exactly one comes before
/// the other, and a name comes before every longer one that starts with it.
pub proof fn law_names_are_in_order(a: Seq<char>, b: Seq<char>, c: char)
    ensures
        a != b <==> comes_before(a, b) || comes_before(b, a),
        !(comes_before(a, b) && comes_before(b, a)),
        comes_before(a, a.push(c)),
    decreases a.len(),
{
    if a.len() > 0 {
        assert(a.push(c).skip(1) =~= a.skip(1).push(c));
        law_names_are_in_order(a.skip(1), b.skip(1), c);
        if b.len() > 0 && a[0] == b[0] && a.skip(1) == b.skip(1) {
            assert(a =~= seq![a[0]] + a.skip(1));
            assert(b =~= seq![b[0]] + b.skip(1));
        }
    } else if b.len() == 0 {
        assert(a =~= b);
    }
}

} // verus!
