//! Collections of named items: the mathematical view of a vector of items,
//! and the search for the first item of a given name.

use vstd::prelude::*;

verus! {

/// The views of the items of a sequence, in the same order.
pub open spec fn views<T: View>(s: Seq<T>) -> Seq<T::V> {
    s.map_values(|t: T| t@)
}

/// Replacing an item replaces its view.
pub proof fn lemma_views_update<T: View>(s: Seq<T>, i: int)
    requires
        0 <= i < s.len(),
    ensures
        forall|x: T| #[trigger] views(s.update(i, x)) == views(s).update(i, x@),
{
    assert forall|x: T| #[trigger] views(s.update(i, x)) == views(s).update(i, x@) by {
        assert(views(s.update(i, x)) =~= views(s).update(i, x@));
    }
}

/// Appending an item appends its view.
pub proof fn lemma_views_push<T: View>(s: Seq<T>)
    ensures
        forall|x: T| #[trigger] views(s.push(x)) == views(s).push(x@),
{
    assert forall|x: T| #[trigger] views(s.push(x)) == views(s).push(x@) by {
        assert(views(s.push(x)) =~= views(s).push(x@));
    }
}

/// An item that is known by a name.
pub trait Named: View {
    /// The name that an item with the given view carries.
    spec fn name_of(v: Self::V) -> Seq<char>;

    /// Whether the item carries the given name.
    fn has_name(&self, name: &String) -> (r: bool)
        ensures
            r == (Self::name_of(self@) == name@),
    ;
}

/// The names of the items, in the same order.
pub open spec fn names_of<T: Named>(vs: Seq<T::V>) -> Seq<Seq<char>> {
    vs.map_values(|v: T::V| T::name_of(v))
}

/// The names of the items are all different.
pub open spec fn distinct_names<T: Named>(vs: Seq<T::V>) -> bool {
    forall|i: int, j: int|
        0 <= i < j < vs.len() ==> T::name_of(#[trigger] vs[i]) != T::name_of(#[trigger] vs[j])
}

/// The place of the first item called `name`, where there is one.
pub open spec fn first_named<T: Named>(vs: Seq<T::V>, name: Seq<char>) -> Option<int> {
    names_of::<T>(vs).index_of_first(name)
}

/// Some item is called `name`.
pub open spec fn has_named<T: Named>(vs: Seq<T::V>, name: Seq<char>) -> bool {
    exists|i: int| 0 <= i < vs.len() && T::name_of(#[trigger] vs[i]) == name
}

/// The first item called `name` is called so, no item in front of it is, and
/// there is a first one exactly when there is one at all.
pub proof fn lemma_first_named<T: Named>(vs: Seq<T::V>, name: Seq<char>)
    ensures
        first_named::<T>(vs, name).is_some() <==> has_named::<T>(vs, name),
        match first_named::<T>(vs, name) {
            Some(i) => {
                &&& 0 <= i < vs.len()
                &&& T::name_of(vs[i]) == name
                &&& forall|j: int| 0 <= j < i ==> T::name_of(#[trigger] vs[j]) != name
            },
            None => forall|j: int| 0 <= j < vs.len() ==> T::name_of(#[trigger] vs[j]) != name,
        },
{
    let names = names_of::<T>(vs);
    names.index_of_first_ensures(name);
    match names.index_of_first(name) {
        Some(i) => {
            assert(names[i] == T::name_of(vs[i]));
            assert forall|j: int| 0 <= j < i implies T::name_of(#[trigger] vs[j]) != name by {
                assert(names[j] == T::name_of(vs[j]));
            }
        },
        None => {
            assert forall|j: int| 0 <= j < vs.len() implies T::name_of(#[trigger] vs[j])
                != name by {
                assert(names[j] == T::name_of(vs[j]));
                assert(names.contains(names[j]));
            }
        },
    }
    if has_named::<T>(vs, name) {
        let i = choose|i: int| 0 <= i < vs.len() && T::name_of(#[trigger] vs[i]) == name;
        assert(names[i] == name);
        assert(names.contains(name));
    }
}

/// The first item called `name` is the only place that holds that name
/// with no equal name in front of it.
pub proof fn lemma_first_named_is<T: Named>(vs: Seq<T::V>, name: Seq<char>, i: int)
    requires
        0 <= i < vs.len(),
        T::name_of(vs[i]) == name,
        forall|j: int| 0 <= j < i ==> T::name_of(#[trigger] vs[j]) != name,
    ensures
        first_named::<T>(vs, name) == Some(i),
{
    lemma_first_named::<T>(vs, name);
}

/// Appending an item whose name no item carries keeps the names distinct.
pub proof fn lemma_push_keeps_distinct<T: Named>(vs: Seq<T::V>, v: T::V)
    requires
        distinct_names::<T>(vs),
        !has_named::<T>(vs, T::name_of(v)),
    ensures
        distinct_names::<T>(vs.push(v)),
{
    let grown = vs.push(v);
    assert forall|i: int, j: int| 0 <= i < j < grown.len() implies T::name_of(
        #[trigger] grown[i],
    ) != T::name_of(#[trigger] grown[j]) by {
        assert(grown[i] == vs[i]);
        if j < vs.len() {
            assert(grown[j] == vs[j]);
        }
    }
}

/// Finds the first item called `name`.
pub fn find_named<T: Named>(items: &Vec<T>, name: &String) -> (r: Option<usize>)
    ensures
        match r {
            Some(i) => i < items.len() && first_named::<T>(views(items@), name@) == Some(i as int),
            None => first_named::<T>(views(items@), name@).is_none(),
        },
{
    let mut i: usize = 0;
    while i < items.len()
        invariant
            i <= items.len(),
            forall|j: int| 0 <= j < i ==> T::name_of(#[trigger] views(items@)[j]) != name@,
        decreases items.len() - i,
    {
        if items[i].has_name(name) {
            proof {
                lemma_first_named_is::<T>(views(items@), name@, i as int);
            }
            return Some(i);
        }
        i = i + 1;
    }
    proof {
        lemma_first_named::<T>(views(items@), name@);
    }
    None
}

} // verus!
