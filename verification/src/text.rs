//! Diagnostic text: the string building that error messages are made of.
//!
//! Texts are modelled as `Seq<char>`; every builder states the exact characters it produces.

use vstd::prelude::*;
use vstd::string::{StrSliceExecFns, StringExecFns};

verus! {

/// The characters of each string, in order.
pub open spec fn texts(items: Seq<String>) -> Seq<Seq<char>> {
    items.map_values(|item: String| item@)
}

/// `items` written one after the other, with `separator` between neighbours.
pub open spec fn joined(items: Seq<Seq<char>>, separator: Seq<char>) -> Seq<char>
    decreases items.len(),
{
    if items.len() == 0 {
        Seq::empty()
    } else if items.len() == 1 {
        items[0]
    } else {
        joined(items.drop_last(), separator) + separator + items.last()
    }
}

/// `name` between backticks.
pub open spec fn quoted(name: Seq<char>) -> Seq<char> {
    "`"@ + name + "`"@
}

/// Every name between backticks.
pub open spec fn all_quoted(names: Seq<Seq<char>>) -> Seq<Seq<char>> {
    names.map_values(|name: Seq<char>| quoted(name))
}

/// The decimal digit of a number below ten.
pub open spec fn digit(n: nat) -> char {
    ('0' as nat + n % 10) as char
}

/// The decimal notation of `n`.
pub open spec fn decimal_text(n: nat) -> Seq<char>
    decreases n,
{
    if n < 10 {
        seq![digit(n)]
    } else {
        decimal_text(n / 10).push(digit(n % 10))
    }
}

/// Whether `a` comes strictly before `b` in the order of their characters.
pub open spec fn text_before(a: Seq<char>, b: Seq<char>) -> bool
    decreases b.len(),
{
    if b.len() == 0 {
        false
    } else if a.len() == 0 {
        true
    } else if a[0] == b[0] {
        text_before(a.drop_first(), b.drop_first())
    } else {
        (a[0] as int) < (b[0] as int)
    }
}

/// `item` placed into an already ordered `items`, behind everything that does not come after it.
pub open spec fn inserted(items: Seq<Seq<char>>, item: Seq<char>) -> Seq<Seq<char>>
    decreases items.len(),
{
    if items.len() == 0 {
        seq![item]
    } else if text_before(item, items.last()) {
        inserted(items.drop_last(), item).push(items.last())
    } else {
        items.push(item)
    }
}

/// `items` in the order of their characters.
pub open spec fn ordered(items: Seq<Seq<char>>) -> Seq<Seq<char>>
    decreases items.len(),
{
    if items.len() == 0 {
        Seq::empty()
    } else {
        inserted(ordered(items.drop_last()), items.last())
    }
}

/// `items` with every run of equal neighbours cut down to one.
pub open spec fn without_repeats(items: Seq<Seq<char>>) -> Seq<Seq<char>>
    decreases items.len(),
{
    if items.len() <= 1 {
        items
    } else if items[items.len() - 2] == items.last() {
        without_repeats(items.drop_last())
    } else {
        without_repeats(items.drop_last()).push(items.last())
    }
}

/// Whether no text comes before an earlier one.
pub open spec fn in_order(items: Seq<Seq<char>>) -> bool {
    forall|i: int, j: int| 0 <= i < j < items.len() ==> !text_before(items[j], items[i])
}

/// No text comes before itself.
pub proof fn before_is_irreflexive(a: Seq<char>)
    ensures
        !text_before(a, a),
    decreases a.len(),
{
    if a.len() > 0 {
        before_is_irreflexive(a.drop_first());
    }
}

/// Of two texts at most one comes before the other.
pub proof fn before_is_asymmetric(a: Seq<char>, b: Seq<char>)
    ensures
        text_before(a, b) ==> !text_before(b, a),
    decreases a.len(),
{
    if a.len() > 0 && b.len() > 0 {
        before_is_asymmetric(a.drop_first(), b.drop_first());
    }
}

/// Two texts are equal, or one of them comes before the other.
pub proof fn before_is_total(a: Seq<char>, b: Seq<char>)
    ensures
        a == b || text_before(a, b) || text_before(b, a),
    decreases a.len(),
{
    if a.len() > 0 && b.len() > 0 {
        if a[0] == b[0] {
            before_is_total(a.drop_first(), b.drop_first());
            if a.drop_first() == b.drop_first() {
                assert(a =~= seq![a[0]] + a.drop_first());
                assert(b =~= seq![b[0]] + b.drop_first());
            }
        } else {
            assert(a[0] as int != b[0] as int);
        }
    } else if a.len() == 0 && b.len() == 0 {
        assert(a =~= b);
    }
}

/// The order of texts is transitive, also through "does not come after".
pub proof fn before_is_transitive(a: Seq<char>, b: Seq<char>, c: Seq<char>)
    ensures
        text_before(a, b) && !text_before(c, b) ==> text_before(a, c),
        !text_before(b, a) && !text_before(c, b) ==> !text_before(c, a),
    decreases a.len() + b.len() + c.len(),
{
    if a.len() > 0 && b.len() > 0 && c.len() > 0 {
        before_is_transitive(a.drop_first(), b.drop_first(), c.drop_first());
        assert(a[0] as int == b[0] as int ==> a[0] == b[0]);
        assert(b[0] as int == c[0] as int ==> b[0] == c[0]);
        assert(a[0] as int == c[0] as int ==> a[0] == c[0]);
    }
}

proof fn inserted_stays_in_order(items: Seq<Seq<char>>, item: Seq<char>)
    requires
        in_order(items),
    ensures
        in_order(inserted(items, item)),
        inserted(items, item).to_multiset() == items.to_multiset().insert(item),
        inserted(items, item).len() == items.len() + 1,
    decreases items.len(),
{
    broadcast use vstd::seq_lib::group_to_multiset_ensures;

    if items.len() == 0 {
        assert(seq![item] =~= Seq::<Seq<char>>::empty().push(item));
        assert(items =~= Seq::<Seq<char>>::empty());
    } else if text_before(item, items.last()) {
        let shorter = items.drop_last();
        assert(items =~= shorter.push(items.last()));
        inserted_stays_in_order(shorter, item);
        let before = inserted(shorter, item);
        let after = inserted(items, item);
        assert forall|i: int, j: int| 0 <= i < j < after.len() implies !text_before(
            after[j],
            after[i],
        ) by {
            if j < after.len() - 1 {
                assert(after[i] == before[i] && after[j] == before[j]);
            } else {
                assert(after[i] == before[i]);
                assert(before.contains(after[i]));
                assert(before.to_multiset().count(after[i]) > 0);
                if after[i] == item {
                    before_is_asymmetric(item, items.last());
                } else {
                    assert(shorter.to_multiset().count(after[i]) > 0);
                    assert(shorter.contains(after[i]));
                    let k = choose|k: int| 0 <= k < shorter.len() && shorter[k] == after[i];
                    assert(items[k] == after[i]);
                }
            }
        }
        assert(items.to_multiset() == shorter.to_multiset().insert(items.last()));
        assert(after.to_multiset() =~= items.to_multiset().insert(item));
    } else {
        let after = items.push(item);
        assert forall|i: int, j: int| 0 <= i < j < after.len() implies !text_before(
            after[j],
            after[i],
        ) by {
            if j == after.len() - 1 && i < items.len() - 1 {
                before_is_transitive(items[i], items.last(), item);
            }
        }
    }
}

/// Ordering texts keeps exactly the texts there were and leaves none behind a later one.
pub proof fn ordered_is_a_sorted_permutation(items: Seq<Seq<char>>)
    ensures
        in_order(ordered(items)),
        ordered(items).to_multiset() == items.to_multiset(),
        ordered(items).len() == items.len(),
    decreases items.len(),
{
    broadcast use vstd::seq_lib::group_to_multiset_ensures;

    if items.len() == 0 {
        assert(items =~= Seq::<Seq<char>>::empty());
    } else {
        ordered_is_a_sorted_permutation(items.drop_last());
        inserted_stays_in_order(ordered(items.drop_last()), items.last());
        assert(items =~= items.drop_last().push(items.last()));
    }
}

/// A new string holding `text`.
pub fn owned(text: &str) -> (r: String)
    ensures
        r@ == text@,
{
    String::from_str(text)
}

/// `before`, `middle` and `after` written one after the other.
pub fn enclosed(before: &str, middle: &str, after: &str) -> (r: String)
    ensures
        r@ == before@ + middle@ + after@,
{
    let mut r = String::from_str(before);
    r.append(middle);
    r.append(after);
    r
}

/// `items` written one after the other, with `separator` between neighbours.
pub fn join(items: &Vec<String>, separator: &str) -> (r: String)
    ensures
        r@ == joined(texts(items@), separator@),
{
    let mut r = String::new();
    let mut i: usize = 0;
    while i < items.len()
        invariant
            i <= items.len(),
            r@ == joined(texts(items@).take(i as int), separator@),
        decreases items.len() - i,
    {
        let ghost all = texts(items@);
        proof {
            assert(all.take(i as int + 1).drop_last() =~= all.take(i as int));
            assert(all.take(i as int + 1).last() == items@[i as int]@);
        }
        if i > 0 {
            r.append(separator);
        }
        r.append(items[i].as_str());
        proof {
            if i == 0 {
                assert(r@ =~= all.take(1)[0]);
            }
        }
        i = i + 1;
    }
    proof {
        assert(texts(items@).take(i as int) =~= texts(items@));
    }
    r
}

/// Backtick-quotes every name and joins them with commas.
pub fn quoted_list(names: &Vec<String>) -> (r: String)
    ensures
        r@ == joined(all_quoted(texts(names@)), ", "@),
{
    let mut marked: Vec<String> = Vec::new();
    let mut i: usize = 0;
    while i < names.len()
        invariant
            i <= names.len(),
            texts(marked@) == all_quoted(texts(names@)).take(i as int),
        decreases names.len() - i,
    {
        let ghost earlier = texts(marked@);
        marked.push(enclosed("`", names[i].as_str(), "`"));
        proof {
            assert(texts(marked@) =~= earlier.push(quoted(names@[i as int]@)));
            assert(all_quoted(texts(names@)).take(i as int + 1) =~= all_quoted(
                texts(names@),
            ).take(i as int).push(quoted(names@[i as int]@)));
        }
        i = i + 1;
    }
    proof {
        assert(all_quoted(texts(names@)).take(i as int) =~= all_quoted(texts(names@)));
    }
    join(&marked, ", ")
}

/// One decimal digit.
fn digit_str(n: usize) -> (r: &'static str)
    requires
        n < 10,
    ensures
        r@ == seq![digit(n as nat)],
{
    proof {
        reveal_strlit("0");
        reveal_strlit("1");
        reveal_strlit("2");
        reveal_strlit("3");
        reveal_strlit("4");
        reveal_strlit("5");
        reveal_strlit("6");
        reveal_strlit("7");
        reveal_strlit("8");
        reveal_strlit("9");
    }
    let r = match n {
        0 => "0",
        1 => "1",
        2 => "2",
        3 => "3",
        4 => "4",
        5 => "5",
        6 => "6",
        7 => "7",
        8 => "8",
        _ => "9",
    };
    assert(r@ =~= seq![digit(n as nat)]);
    r
}

/// The decimal notation of `n`.
pub fn decimal(n: usize) -> (r: String)
    ensures
        r@ == decimal_text(n as nat),
    decreases n,
{
    if n < 10 {
        String::from_str(digit_str(n))
    } else {
        let mut r = decimal(n / 10);
        r.append(digit_str(n % 10));
        assert(r@ =~= decimal_text(n as nat));
        r
    }
}

/// Whether `a` comes strictly before `b` in the order of their characters.
pub fn comes_before(a: &str, b: &str) -> (r: bool)
    ensures
        r == text_before(a@, b@),
{
    let a_len: usize = a.unicode_len();
    let b_len: usize = b.unicode_len();
    let mut i: usize = 0;
    proof {
        assert(a@.skip(0) =~= a@);
        assert(b@.skip(0) =~= b@);
    }
    while i < a_len && i < b_len
        invariant
            i <= a_len,
            i <= b_len,
            a_len == a@.len(),
            b_len == b@.len(),
            text_before(a@, b@) == text_before(a@.skip(i as int), b@.skip(i as int)),
        decreases a_len - i,
    {
        let x = a.get_char(i);
        let y = b.get_char(i);
        proof {
            assert(a@.skip(i as int).drop_first() =~= a@.skip(i as int + 1));
            assert(b@.skip(i as int).drop_first() =~= b@.skip(i as int + 1));
            assert(a@.skip(i as int)[0] == x);
            assert(b@.skip(i as int)[0] == y);
        }
        if x != y {
            return (x as u32) < (y as u32);
        }
        i = i + 1;
    }
    i < b_len
}

/// Where `item` belongs in the ordered `sorted`.
fn insertion_point(sorted: &Vec<String>, item: &String) -> (at: usize)
    ensures
        at <= sorted.len(),
        inserted(texts(sorted@), item@) == texts(sorted@).take(at as int).push(item@)
            + texts(sorted@).skip(at as int),
{
    let ghost all = texts(sorted@);
    let mut at: usize = sorted.len();
    proof {
        assert(all.take(at as int) =~= all);
        assert(inserted(all, item@) + all.skip(at as int) =~= inserted(all, item@));
    }
    while at > 0
        invariant
            at <= sorted.len(),
            all == texts(sorted@),
            inserted(all, item@) == inserted(all.take(at as int), item@) + all.skip(at as int),
        decreases at,
    {
        let ghost shown = all.take(at as int);
        if !comes_before(item.as_str(), sorted[at - 1].as_str()) {
            return at;
        }
        proof {
            assert(shown.drop_last() =~= all.take(at as int - 1));
            assert(inserted(shown, item@) == inserted(all.take(at as int - 1), item@).push(
                shown.last(),
            ));
            assert(inserted(all.take(at as int - 1), item@).push(shown.last()) + all.skip(
                at as int,
            ) =~= inserted(all.take(at as int - 1), item@) + all.skip(at as int - 1));
        }
        at = at - 1;
    }
    proof {
        assert(all.take(0) =~= Seq::<Seq<char>>::empty());
        assert(seq![item@] =~= all.take(0).push(item@));
    }
    at
}

/// Sorts `items` by their characters.
pub fn sort(items: Vec<String>) -> (r: Vec<String>)
    ensures
        texts(r@) == ordered(texts(items@)),
{
    let mut sorted: Vec<String> = Vec::new();
    let mut i: usize = 0;
    proof {
        assert(texts(sorted@) =~= ordered(texts(items@).take(0)));
    }
    while i < items.len()
        invariant
            i <= items.len(),
            texts(sorted@) == ordered(texts(items@).take(i as int)),
        decreases items.len() - i,
    {
        let item = items[i].clone();
        let at: usize = insertion_point(&sorted, &item);
        let ghost earlier = texts(sorted@);
        sorted.insert(at, item);
        proof {
            let shown = texts(items@).take(i as int + 1);
            assert(shown.drop_last() =~= texts(items@).take(i as int));
            assert(shown.last() == item@);
            assert(texts(sorted@) =~= earlier.take(at as int).push(item@) + earlier.skip(
                at as int,
            ));
        }
        i = i + 1;
    }
    proof {
        assert(texts(items@).take(i as int) =~= texts(items@));
    }
    sorted
}

/// Cuts every run of equal neighbours down to one.
pub fn dedup(items: Vec<String>) -> (r: Vec<String>)
    ensures
        texts(r@) == without_repeats(texts(items@)),
{
    let mut kept: Vec<String> = Vec::new();
    let mut i: usize = 0;
    proof {
        assert(texts(kept@) =~= without_repeats(texts(items@).take(0)));
    }
    while i < items.len()
        invariant
            i <= items.len(),
            texts(kept@) == without_repeats(texts(items@).take(i as int)),
        decreases items.len() - i,
    {
        let ghost shown = texts(items@).take(i as int + 1);
        let ghost earlier = texts(kept@);
        proof {
            assert(shown.drop_last() =~= texts(items@).take(i as int));
            assert(shown.last() == items@[i as int]@);
            if i > 0 {
                assert(shown[shown.len() - 2] == items@[i as int - 1]@);
            }
        }
        if i == 0 || items[i] != items[i - 1] {
            kept.push(items[i].clone());
            proof {
                assert(texts(kept@) =~= earlier.push(shown.last()));
                if i == 0 {
                    assert(earlier =~= Seq::<Seq<char>>::empty());
                    assert(texts(kept@) =~= shown);
                }
            }
        }
        i = i + 1;
    }
    proof {
        assert(texts(items@).take(i as int) =~= texts(items@));
    }
    kept
}

proof fn same_texts_in_order_are_equal(a: Seq<Seq<char>>, b: Seq<Seq<char>>)
    requires
        in_order(a),
        in_order(b),
        a.to_multiset() == b.to_multiset(),
    ensures
        a == b,
    decreases a.len(),
{
    broadcast use vstd::seq_lib::group_to_multiset_ensures;

    assert(a.len() == a.to_multiset().len() && b.len() == b.to_multiset().len());
    if a.len() == 0 {
        assert(a =~= b);
    } else {
        let x = a.last();
        let y = b.last();
        assert(a.contains(x) && b.contains(y));
        assert(b.to_multiset().count(x) > 0 && a.to_multiset().count(y) > 0);
        assert(b.contains(x) && a.contains(y));
        let i = choose|i: int| 0 <= i < b.len() && b[i] == x;
        let j = choose|j: int| 0 <= j < a.len() && a[j] == y;
        before_is_irreflexive(x);
        before_is_irreflexive(y);
        assert(!text_before(y, x)) by {
            if i < b.len() - 1 {
                assert(!text_before(b[b.len() - 1], b[i]));
            }
        }
        assert(!text_before(x, y)) by {
            if j < a.len() - 1 {
                assert(!text_before(a[a.len() - 1], a[j]));
            }
        }
        before_is_total(x, y);
        assert(a =~= a.drop_last().push(x));
        assert(b =~= b.drop_last().push(x));
        assert(a.drop_last().to_multiset() =~= a.to_multiset().remove(x));
        assert(b.drop_last().to_multiset() =~= b.to_multiset().remove(x));
        assert forall|p: int, q: int| 0 <= p < q < a.drop_last().len() implies !text_before(
            #[trigger] a.drop_last()[q],
            #[trigger] a.drop_last()[p],
        ) by {
            assert(!text_before(a[q], a[p]));
        }
        assert forall|p: int, q: int| 0 <= p < q < b.drop_last().len() implies !text_before(
            #[trigger] b.drop_last()[q],
            #[trigger] b.drop_last()[p],
        ) by {
            assert(!text_before(b[q], b[p]));
        }
        same_texts_in_order_are_equal(a.drop_last(), b.drop_last());
    }
}

/// The order that texts come in does not show once they are ordered.
pub proof fn ordering_forgets_the_order(a: Seq<Seq<char>>, b: Seq<Seq<char>>)
    requires
        a.to_multiset() == b.to_multiset(),
    ensures
        ordered(a) == ordered(b),
{
    ordered_is_a_sorted_permutation(a);
    ordered_is_a_sorted_permutation(b);
    same_texts_in_order_are_equal(ordered(a), ordered(b));
}

} // verus!
