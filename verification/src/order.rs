//! The order in which the members of a JSON object are kept: by name, comparing
//! names character by character.

use vstd::prelude::*;

verus! {

/// `a` stands before `b`: at the first place where they differ `a` has the smaller
/// code point, or `a` ends there.
pub open spec fn text_before(a: Seq<char>, b: Seq<char>) -> bool
    decreases a.len(),
{
    if b.len() == 0 {
        false
    } else if a.len() == 0 {
        true
    } else if a[0] == b[0] {
        text_before(a.drop_first(), b.drop_first())
    } else {
        a[0] < b[0]
    }
}

/// The names are in strictly ascending order, so none occurs twice.
pub open spec fn ascending(names: Seq<Seq<char>>) -> bool {
    forall|i: int, j: int|
        0 <= i < j < names.len() ==> text_before(#[trigger] names[i], #[trigger] names[j])
}

/// The names of `names`, each once, in ascending order.
pub open spec fn in_ascending_order(names: Set<Seq<char>>) -> Seq<Seq<char>> {
    choose|list: Seq<Seq<char>>| ascending(list) && #[trigger] list.to_set() == names
}

pub proof fn lemma_text_before_irreflexive(a: Seq<char>)
    ensures
        !text_before(a, a),
    decreases a.len(),
{
    if a.len() > 0 {
        lemma_text_before_irreflexive(a.drop_first());
    }
}

pub proof fn lemma_text_before_asymmetric(a: Seq<char>, b: Seq<char>)
    requires
        text_before(a, b),
    ensures
        !text_before(b, a),
    decreases a.len(),
{
    if a.len() > 0 && a[0] == b[0] {
        lemma_text_before_asymmetric(a.drop_first(), b.drop_first());
    }
}

/// Two ascending lists of the same names are the same list.
pub proof fn lemma_ascending_unique(a: Seq<Seq<char>>, b: Seq<Seq<char>>)
    requires
        ascending(a),
        ascending(b),
        a.to_set() == b.to_set(),
    ensures
        a == b,
    decreases a.len(),
{
    if a.len() == 0 {
        if b.len() > 0 {
            assert(b.to_set().contains(b[0]));
            assert(a.to_set().contains(b[0]));
        }
        assert(a =~= b);
    } else {
        assert(a.to_set().contains(a[0]));
        assert(b.to_set().contains(a[0]));
        assert(b.len() > 0);
        lemma_same_last(a, b);
        let a1 = a.drop_last();
        let b1 = b.drop_last();
        assert(a1.to_set() =~= b1.to_set()) by {
            lemma_drop_last_set(a);
            lemma_drop_last_set(b);
        }
        lemma_ascending_unique(a1, b1);
        assert(a =~= a1.push(a.last()));
        assert(b =~= b1.push(b.last()));
    }
}

proof fn lemma_same_last(a: Seq<Seq<char>>, b: Seq<Seq<char>>)
    requires
        ascending(a),
        ascending(b),
        a.len() > 0,
        b.len() > 0,
        a.to_set() == b.to_set(),
    ensures
        a.last() == b.last(),
{
    assert(a.to_set().contains(a.last()));
    assert(b.to_set().contains(b.last()));
    assert(b.contains(a.last()));
    assert(a.contains(b.last()));
    let j = choose|j: int| 0 <= j < b.len() && b[j] == a.last();
    let i = choose|i: int| 0 <= i < a.len() && a[i] == b.last();
    if j < b.len() - 1 {
        assert(text_before(b[j], b[b.len() - 1]));
        if i < a.len() - 1 {
            assert(text_before(a[i], a[a.len() - 1]));
            lemma_text_before_asymmetric(a.last(), b.last());
        }
    }
}

proof fn lemma_drop_last_set(a: Seq<Seq<char>>)
    requires
        ascending(a),
        a.len() > 0,
    ensures
        a.drop_last().to_set() =~= a.to_set().remove(a.last()),
{
    let a1 = a.drop_last();
    assert forall|x: Seq<char>| a1.to_set().contains(x) == a.to_set().remove(a.last()).contains(
        x,
    ) by {
        if a1.contains(x) {
            let i = choose|i: int| 0 <= i < a1.len() && a1[i] == x;
            assert(a[i] == x);
            assert(text_before(a[i], a[a.len() - 1]));
            lemma_text_before_irreflexive(x);
        }
        if a.contains(x) && x != a.last() {
            let i = choose|i: int| 0 <= i < a.len() && a[i] == x;
            assert(a1[i] == x);
        }
    }
}

/// An ascending list is the one that its set of names is put in order to.
pub proof fn lemma_in_ascending_order(list: Seq<Seq<char>>)
    requires
        ascending(list),
    ensures
        in_ascending_order(list.to_set()) == list,
{
    let chosen = in_ascending_order(list.to_set());
    assert(ascending(list) && list.to_set() == list.to_set());
    lemma_ascending_unique(chosen, list);
}

/// No name occurs twice in an ascending list.
pub proof fn lemma_ascending_distinct(list: Seq<Seq<char>>)
    requires
        ascending(list),
    ensures
        list.no_duplicates(),
{
    assert forall|i: int, j: int| 0 <= i < list.len() && 0 <= j < list.len() && i != j implies
        list[i] != list[j] by {
        lemma_text_before_irreflexive(list[i]);
        if i < j {
            assert(text_before(list[i], list[j]));
        } else {
            assert(text_before(list[j], list[i]));
        }
    }
}

pub proof fn lemma_text_before_total(a: Seq<char>, b: Seq<char>)
    ensures
        a == b || text_before(a, b) || text_before(b, a),
    decreases a.len(),
{
    if a.len() > 0 && b.len() > 0 && a[0] == b[0] {
        lemma_text_before_total(a.drop_first(), b.drop_first());
        if a.drop_first() == b.drop_first() {
            assert(a =~= seq![a[0]] + a.drop_first());
            assert(b =~= seq![b[0]] + b.drop_first());
        }
    } else if a.len() == 0 && b.len() == 0 {
        assert(a =~= b);
    }
}

pub proof fn lemma_text_before_transitive(a: Seq<char>, b: Seq<char>, c: Seq<char>)
    requires
        text_before(a, b),
        text_before(b, c),
    ensures
        text_before(a, c),
    decreases a.len(),
{
    if a.len() > 0 && a[0] == b[0] && b[0] == c[0] {
        lemma_text_before_transitive(a.drop_first(), b.drop_first(), c.drop_first());
    }
}

/// A finite set of names can be put in ascending order.
pub proof fn lemma_can_be_ordered(names: Set<Seq<char>>)
    requires
        names.finite(),
    ensures
        ascending(in_ascending_order(names)),
        in_ascending_order(names).to_set() == names,
    decreases names.len(),
{
    if names.len() == 0 {
        let none = Seq::<Seq<char>>::empty();
        assert(ascending(none) && none.to_set() =~= names);
    } else {
        let name = names.choose();
        let rest = names.remove(name);
        lemma_can_be_ordered(rest);
        let list = insert_ordered(in_ascending_order(rest), name);
        lemma_insert_ordered(in_ascending_order(rest), name);
        assert(list.to_set() =~= names);
    }
}

spec fn insert_ordered(list: Seq<Seq<char>>, name: Seq<char>) -> Seq<Seq<char>>
    decreases list.len(),
{
    if list.len() == 0 || text_before(name, list[0]) {
        seq![name] + list
    } else {
        seq![list[0]] + insert_ordered(list.drop_first(), name)
    }
}

proof fn lemma_insert_ordered(list: Seq<Seq<char>>, name: Seq<char>)
    requires
        ascending(list),
        !list.to_set().contains(name),
    ensures
        ascending(insert_ordered(list, name)),
        insert_ordered(list, name).to_set() =~= list.to_set().insert(name),
    decreases list.len(),
{
    let longer = insert_ordered(list, name);
    if list.len() == 0 || text_before(name, list[0]) {
        assert forall|i: int, j: int| 0 <= i < j < longer.len() implies text_before(
            #[trigger] longer[i],
            #[trigger] longer[j],
        ) by {
            assert(longer[j] == list[j - 1]);
            if i == 0 {
                if j > 1 {
                    assert(text_before(list[0], list[j - 1]));
                    lemma_text_before_transitive(name, list[0], list[j - 1]);
                }
            } else {
                assert(longer[i] == list[i - 1]);
            }
        }
        assert forall|x: Seq<char>| longer.to_set().contains(x) == list.to_set().insert(
            name,
        ).contains(x) by {
            if list.contains(x) {
                let i = choose|i: int| 0 <= i < list.len() && list[i] == x;
                assert(longer[i + 1] == x);
            }
            assert(longer[0] == name);
        }
    } else {
        let rest = list.drop_first();
        assert(ascending(rest)) by {
            assert forall|i: int, j: int| 0 <= i < j < rest.len() implies text_before(
                #[trigger] rest[i],
                #[trigger] rest[j],
            ) by {
                assert(text_before(list[i + 1], list[j + 1]));
            }
        }
        assert(!rest.contains(name)) by {
            if rest.contains(name) {
                let i = choose|i: int| 0 <= i < rest.len() && rest[i] == name;
                assert(list[i + 1] == name);
            }
        }
        lemma_insert_ordered(rest, name);
        let tail = insert_ordered(rest, name);
        assert(list.to_set().contains(list[0]));
        lemma_text_before_total(name, list[0]);
        assert forall|i: int, j: int| 0 <= i < j < longer.len() implies text_before(
            #[trigger] longer[i],
            #[trigger] longer[j],
        ) by {
            assert(longer[j] == tail[j - 1]);
            if i == 0 {
                assert(tail.to_set().contains(tail[j - 1]));
                if tail[j - 1] != name {
                    assert(rest.contains(tail[j - 1]));
                    let k = choose|k: int| 0 <= k < rest.len() && rest[k] == tail[j - 1];
                    assert(text_before(list[0], list[k + 1]));
                }
            } else {
                assert(longer[i] == tail[i - 1]);
            }
        }
        assert forall|x: Seq<char>| longer.to_set().contains(x) == list.to_set().insert(
            name,
        ).contains(x) by {
            if longer.contains(x) {
                let i = choose|i: int| 0 <= i < longer.len() && longer[i] == x;
                if i > 0 {
                    assert(tail[i - 1] == x);
                    assert(tail.to_set().contains(x));
                    if x != name {
                        let k = choose|k: int| 0 <= k < rest.len() && rest[k] == x;
                        assert(list[k + 1] == x);
                    }
                } else {
                    assert(list[0] == x);
                }
            }
            if list.to_set().insert(name).contains(x) {
                if x == list[0] {
                    assert(longer[0] == x);
                } else {
                    if x != name {
                        let k = choose|k: int| 0 <= k < list.len() && list[k] == x;
                        assert(rest[k - 1] == x);
                    }
                    assert(tail.to_set().contains(x));
                    let k = choose|k: int| 0 <= k < tail.len() && tail[k] == x;
                    assert(longer[k + 1] == x);
                }
            }
        }
    }
}

/// Texts that begin alike are ordered by what follows.
proof fn lemma_common_start(a: Seq<char>, b: Seq<char>, length: nat)
    requires
        length <= a.len(),
        length <= b.len(),
        a.take(length as int) == b.take(length as int),
    ensures
        text_before(a, b) == text_before(a.skip(length as int), b.skip(length as int)),
    decreases length,
{
    if length == 0 {
        assert(a.skip(0) =~= a);
        assert(b.skip(0) =~= b);
    } else {
        let shorter = (length - 1) as nat;
        assert(a.take(length as int)[0] == a[0]);
        assert(b.take(length as int)[0] == b[0]);
        assert(a.drop_first().take(shorter as int) =~= a.take(length as int).drop_first());
        assert(b.drop_first().take(shorter as int) =~= b.take(length as int).drop_first());
        lemma_common_start(a.drop_first(), b.drop_first(), shorter);
        assert(a.drop_first().skip(shorter as int) =~= a.skip(length as int));
        assert(b.drop_first().skip(shorter as int) =~= b.skip(length as int));
    }
}

/// Whether a text stands before another.
pub fn is_before(a: &str, b: &str) -> (before: bool)
    ensures
        before == text_before(a@, b@),
{
    let a_length: usize = a.unicode_len();
    let b_length: usize = b.unicode_len();
    let mut i: usize = 0;
    assert(a@.take(0) =~= b@.take(0));
    while i < a_length && i < b_length
        invariant
            a_length == a@.len(),
            b_length == b@.len(),
            i <= a_length,
            i <= b_length,
            a@.take(i as int) == b@.take(i as int),
        decreases a_length - i,
    {
        let c = a.get_char(i);
        let d = b.get_char(i);
        if c != d {
            proof {
                lemma_common_start(a@, b@, i as nat);
                assert(a@.skip(i as int)[0] == c);
                assert(b@.skip(i as int)[0] == d);
            }
            return c < d;
        }
        assert(a@.take(i + 1) =~= a@.take(i as int).push(c));
        assert(b@.take(i + 1) =~= b@.take(i as int).push(d));
        i = i + 1;
    }
    proof {
        lemma_common_start(a@, b@, i as nat);
    }
    i < b_length
}

/// A text stands before another exactly where, behind a start that they have in common, it ends
/// and the other goes on, or has the character with the smaller code point.
pub proof fn law_order_is_by_first_difference(a: Seq<char>, b: Seq<char>)
    ensures
        text_before(a, b) <==> exists|i: int|
            0 <= i <= a.len() && i < b.len() && #[trigger] a.take(i) == b.take(i) && (i == a.len()
                || a[i] < b[i]),
    decreases a.len(),
{
    if text_before(a, b) {
        if a.len() > 0 && a[0] == b[0] {
            let a1 = a.drop_first();
            let b1 = b.drop_first();
            law_order_is_by_first_difference(a1, b1);
            let i = choose|i: int|
                0 <= i <= a1.len() && i < b1.len() && #[trigger] a1.take(i) == b1.take(i) && (i
                    == a1.len() || a1[i] < b1[i]);
            assert(a.take(i + 1) =~= seq![a[0]] + a1.take(i));
            assert(b.take(i + 1) =~= seq![b[0]] + b1.take(i));
            assert(a.take(i + 1) == b.take(i + 1));
        } else {
            assert(a.take(0) =~= b.take(0));
        }
    }
    if exists|i: int|
        0 <= i <= a.len() && i < b.len() && #[trigger] a.take(i) == b.take(i) && (i == a.len()
            || a[i] < b[i]) {
        let i = choose|i: int|
            0 <= i <= a.len() && i < b.len() && #[trigger] a.take(i) == b.take(i) && (i == a.len()
                || a[i] < b[i]);
        lemma_common_start(a, b, i as nat);
        if i < a.len() {
            assert(a.skip(i)[0] == a[i]);
        }
        assert(b.skip(i)[0] == b[i]);
    }
}

} // verus!
