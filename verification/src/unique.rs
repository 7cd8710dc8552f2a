use vstd::prelude::*;
use crate::digits::chars_of;

verus! {

/// Lexicographic order of texts by character code: a proper prefix comes
/// first. This is the order of `String`, whose UTF-8 bytes order the same
/// way as their characters.
pub open spec fn text_lt(a: Seq<char>, b: Seq<char>) -> bool
    decreases a.len(),
{
    if a.len() == 0 {
        b.len() > 0
    } else if b.len() == 0 {
        false
    } else if a[0] != b[0] {
        a[0] < b[0]
    } else {
        text_lt(a.drop_first(), b.drop_first())
    }
}

/// No text precedes itself, and of two different texts one precedes the
/// other.
pub proof fn lemma_text_lt_total(a: Seq<char>, b: Seq<char>)
    ensures
        !text_lt(a, a),
        a != b ==> text_lt(a, b) || text_lt(b, a),
        !(text_lt(a, b) && text_lt(b, a)),
    decreases a.len(),
{
    if a.len() > 0 {
        lemma_text_lt_total(a.drop_first(), a.drop_first());
    }
    if a.len() > 0 && b.len() > 0 {
        lemma_text_lt_total(a.drop_first(), b.drop_first());
        if a[0] == b[0] && a.drop_first() =~= b.drop_first() {
            assert(a =~= b) by {
                assert forall|i: int| 0 <= i < a.len() implies a[i] == b[i] by {
                    if i > 0 {
                        assert(a[i] == a.drop_first()[i - 1]);
                        assert(b[i] == b.drop_first()[i - 1]);
                    }
                }
            }
        }
    } else if a.len() == 0 && b.len() == 0 {
        assert(a =~= b);
    }
}

/// The order is transitive.
pub proof fn lemma_text_lt_transitive(a: Seq<char>, b: Seq<char>, c: Seq<char>)
    requires
        text_lt(a, b),
        text_lt(b, c),
    ensures
        text_lt(a, c),
    decreases a.len(),
{
    if a.len() > 0 && b.len() > 0 && c.len() > 0 && a[0] == b[0] && b[0] == c[0] {
        lemma_text_lt_transitive(a.drop_first(), b.drop_first(), c.drop_first());
    }
}

/// The views of a sequence of strings.
pub open spec fn text_views(values: Seq<String>) -> Seq<Seq<char>> {
    values.map_values(|s: String| s@)
}

/// Strictly increasing in text order.
pub open spec fn strictly_sorted(texts: Seq<Seq<char>>) -> bool {
    forall|i: int, j: int| 0 <= i < j < texts.len() ==> text_lt(#[trigger] texts[i], #[trigger] texts[j])
}

/// A strictly increasing sequence of texts is determined by its members:
/// two of them with the same members are equal. So the result of
/// `sorted_unique` depends only on which texts occur in its input, and
/// applying it to its own result gives that result back.
pub proof fn law_sorted_distinct_texts_are_determined(a: Seq<Seq<char>>, b: Seq<Seq<char>>)
    requires
        strictly_sorted(a),
        strictly_sorted(b),
        a.to_set() == b.to_set(),
    ensures
        a == b,
    decreases a.len(),
{
    if a.len() == 0 {
        if b.len() > 0 {
            assert(b.to_set().contains(b[0]));
        }
        assert(a =~= b);
    } else if b.len() == 0 {
        assert(a.to_set().contains(a[0]));
    } else {
        assert(a.to_set().contains(a[0]));
        assert(b.to_set().contains(b[0]));
        let j = choose|j: int| 0 <= j < b.len() && b[j] == a[0];
        let i = choose|i: int| 0 <= i < a.len() && a[i] == b[0];
        if j > 0 && i > 0 {
            assert(text_lt(b[0], b[j]));
            assert(text_lt(a[0], a[i]));
            lemma_text_lt_total(a[0], b[0]);
        }
        if j == 0 {
            assert(a[0] == b[0]);
        } else {
            assert(i == 0);
            assert(a[0] == b[0]);
        }
        let head = a[0];
        let rest_a = a.drop_first();
        let rest_b = b.drop_first();
        assert forall|t: Seq<char>| #[trigger] rest_a.to_set().contains(t) <==> rest_b.to_set().contains(t) by {
            if rest_a.to_set().contains(t) {
                let k = choose|k: int| 0 <= k < rest_a.len() && rest_a[k] == t;
                assert(a[k + 1] == t);
                assert(text_lt(a[0], a[k + 1]));
                lemma_text_lt_total(head, head);
                assert(b.to_set().contains(t));
                let m = choose|m: int| 0 <= m < b.len() && b[m] == t;
                if m == 0 {
                    lemma_text_lt_total(head, t);
                }
                assert(rest_b[m - 1] == t);
            }
            if rest_b.to_set().contains(t) {
                let k = choose|k: int| 0 <= k < rest_b.len() && rest_b[k] == t;
                assert(b[k + 1] == t);
                assert(text_lt(b[0], b[k + 1]));
                assert(a.to_set().contains(t));
                let m = choose|m: int| 0 <= m < a.len() && a[m] == t;
                if m == 0 {
                    lemma_text_lt_total(head, t);
                }
                assert(rest_a[m - 1] == t);
            }
        }
        assert(rest_a.to_set() =~= rest_b.to_set());
        assert(strictly_sorted(rest_a)) by {
            assert forall|x: int, y: int| 0 <= x < y < rest_a.len() implies text_lt(#[trigger] rest_a[x], #[trigger] rest_a[y]) by {
                assert(text_lt(a[x + 1], a[y + 1]));
            }
        }
        assert(strictly_sorted(rest_b)) by {
            assert forall|x: int, y: int| 0 <= x < y < rest_b.len() implies text_lt(#[trigger] rest_b[x], #[trigger] rest_b[y]) by {
                assert(text_lt(b[x + 1], b[y + 1]));
            }
        }
        law_sorted_distinct_texts_are_determined(rest_a, rest_b);
        assert(a =~= b) by {
            assert forall|k: int| 0 <= k < a.len() implies a[k] == b[k] by {
                if k > 0 {
                    assert(a[k] == rest_a[k - 1]);
                    assert(b[k] == rest_b[k - 1]);
                }
            }
        }
    }
}

/// How `a` compares with `b` in text order.
#[derive(Debug, Clone, Copy, PartialEq, Eq)]
pub enum TextOrder {
    Less,
    Equal,
    Greater,
}

fn compare_chars(a: &Vec<char>, b: &Vec<char>) -> (order: TextOrder)
    ensures
        order == TextOrder::Less <==> text_lt(a@, b@),
        order == TextOrder::Equal <==> a@ == b@,
        order == TextOrder::Greater <==> text_lt(b@, a@),
{
    proof {
        lemma_text_lt_total(a@, b@);
    }
    let mut i: usize = 0;
    assert(a@.skip(0) =~= a@);
    assert(b@.skip(0) =~= b@);
    while i < a.len() && i < b.len() && a[i] == b[i]
        invariant
            i <= a@.len(),
            i <= b@.len(),
            a@.take(i as int) == b@.take(i as int),
            text_lt(a@, b@) == text_lt(a@.skip(i as int), b@.skip(i as int)),
            text_lt(b@, a@) == text_lt(b@.skip(i as int), a@.skip(i as int)),
        decreases a@.len() - i,
    {
        assert(a@.skip(i as int).drop_first() =~= a@.skip(i + 1));
        assert(b@.skip(i as int).drop_first() =~= b@.skip(i + 1));
        assert(a@.take(i + 1) =~= a@.take(i as int).push(a@[i as int]));
        assert(b@.take(i + 1) =~= b@.take(i as int).push(b@[i as int]));
        i = i + 1;
    }
    if i == a.len() && i == b.len() {
        assert(a@ =~= a@.take(i as int));
        assert(b@ =~= b@.take(i as int));
        TextOrder::Equal
    } else if i == a.len() {
        assert(a@ != b@) by {
            assert(a@.len() < b@.len());
        }
        TextOrder::Less
    } else if i == b.len() {
        assert(a@ != b@) by {
            assert(a@.len() > b@.len());
        }
        TextOrder::Greater
    } else {
        assert(a@ != b@) by {
            assert(a@[i as int] != b@[i as int]);
        }
        if a[i] < b[i] {
            TextOrder::Less
        } else {
            TextOrder::Greater
        }
    }
}

/// The distinct texts among a sequence of strings.
pub open spec fn text_set(values: Seq<String>) -> Set<Seq<char>> {
    text_views(values).to_set()
}

/// Inserting a text anywhere in a sequence adds it to the sequence's set.
proof fn lemma_insert_to_set(texts: Seq<Seq<char>>, p: int, text: Seq<char>)
    requires
        0 <= p <= texts.len(),
    ensures
        texts.insert(p, text).to_set() == texts.to_set().insert(text),
{
    let grown = texts.insert(p, text);
    assert forall|t: Seq<char>| #[trigger] grown.to_set().contains(t) implies texts.to_set().insert(text).contains(t) by {
        let i = choose|i: int| 0 <= i < grown.len() && grown[i] == t;
        if i < p {
            assert(texts[i] == t);
        } else if i > p {
            assert(texts[i - 1] == t);
        }
    }
    assert forall|t: Seq<char>| #[trigger] texts.to_set().insert(text).contains(t) implies grown.to_set().contains(t) by {
        if t == text {
            assert(grown[p] == t);
        } else {
            let i = choose|i: int| 0 <= i < texts.len() && texts[i] == t;
            if i < p {
                assert(grown[i] == t);
            } else {
                assert(grown[i + 1] == t);
            }
        }
    }
    assert(grown.to_set() =~= texts.to_set().insert(text));
}

/// Sorts the strings in text order and keeps one of each distinct string:
/// the result is strictly increasing and holds exactly the distinct inputs.
pub fn sorted_unique(values: Vec<String>) -> (unique: Vec<String>)
    ensures
        strictly_sorted(text_views(unique@)),
        text_set(unique@) == text_set(values@),
{
    let ghost input = values@;
    let mut unique: Vec<String> = Vec::new();
    let mut keys: Vec<Vec<char>> = Vec::new();
    assert(text_views(input.take(0)).to_set() =~= text_views(unique@).to_set());
    for value in it: values.into_iter()
        invariant
            it.seq() == input,
            keys@.len() == unique@.len(),
            forall|i: int| 0 <= i < unique@.len() ==> (#[trigger] keys@[i])@ == unique@[i]@,
            strictly_sorted(text_views(unique@)),
            text_set(unique@) == text_set(input.take(it.index() as int)),
    {
        let ghost k = it.index() as int;
        let ghost before = text_set(unique@);
        assert(text_views(input.take(k + 1)) =~= text_views(input.take(k)).push(value@));
        proof {
            text_views(input.take(k)).lemma_push_to_set_commute(value@);
        }
        let key = chars_of(value.as_str());
        let mut p: usize = 0;
        let mut found = false;
        while p < keys.len()
            invariant
                p <= keys@.len() == unique@.len(),
                forall|i: int| 0 <= i < unique@.len() ==> (#[trigger] keys@[i])@ == unique@[i]@,
                forall|i: int| 0 <= i < p ==> text_lt(#[trigger] keys@[i]@, key@),
                found ==> p < keys@.len() && keys@[p as int]@ == key@,
            ensures
                p <= keys@.len(),
                forall|i: int| 0 <= i < p ==> text_lt(#[trigger] keys@[i]@, key@),
                found ==> p < keys@.len() && keys@[p as int]@ == key@,
                !found && p < keys@.len() ==> text_lt(key@, keys@[p as int]@),
            decreases keys@.len() - p,
        {
            match compare_chars(&keys[p], &key) {
                TextOrder::Less => {
                    p = p + 1;
                },
                TextOrder::Equal => {
                    found = true;
                    break;
                },
                TextOrder::Greater => {
                    break;
                },
            }
        }
        if found {
            assert(text_views(unique@)[p as int] == value@);
            assert(before.insert(value@) =~= before);
        } else {
            let ghost old_unique = unique@;
            let ghost old_keys = keys@;
            let ghost inserted = value@;
            unique.insert(p, value);
            keys.insert(p, key);
            assert(text_views(unique@) =~= text_views(old_unique).insert(p as int, inserted));
            proof {
                lemma_insert_to_set(text_views(old_unique), p as int, inserted);
            }
            assert forall|i: int, j: int| 0 <= i < j < text_views(unique@).len() implies text_lt(
                #[trigger] text_views(unique@)[i],
                #[trigger] text_views(unique@)[j],
            ) by {
                let views = text_views(unique@);
                let earlier = text_views(old_unique);
                if j < p {
                    assert(views[i] == earlier[i] && views[j] == earlier[j]);
                } else if j == p {
                    assert(views[i] == earlier[i] && old_keys[i]@ == earlier[i]);
                } else if i == p {
                    assert(views[j] == earlier[j - 1]);
                    if j - 1 > p {
                        assert(text_lt(earlier[p as int], earlier[j - 1]));
                        lemma_text_lt_transitive(inserted, earlier[p as int], earlier[j - 1]);
                    }
                } else if i < p {
                    assert(views[i] == earlier[i] && views[j] == earlier[j - 1]);
                } else {
                    assert(views[i] == earlier[i - 1] && views[j] == earlier[j - 1]);
                }
            }
            assert forall|i: int| 0 <= i < unique@.len() implies (#[trigger] keys@[i])@ == unique@[i]@ by {
                if i < p {
                    assert(keys@[i] == old_keys[i] && unique@[i] == old_unique[i]);
                } else if i > p {
                    assert(keys@[i] == old_keys[i - 1] && unique@[i] == old_unique[i - 1]);
                }
            }
        }
    }
    assert(input.take(input.len() as int) =~= input);
    unique
}

/// A sorted copy of the distinct strings; the input is left unchanged.
pub fn sorted_unique_copy(values: &[String]) -> (unique: Vec<String>)
    ensures
        strictly_sorted(text_views(unique@)),
        text_set(unique@) == text_set(values@),
{
    let mut copies: Vec<String> = Vec::new();
    let mut i: usize = 0;
    while i < values.len()
        invariant
            i <= values@.len(),
            copies@.len() == i,
            forall|k: int| 0 <= k < i ==> (#[trigger] copies@[k])@ == values@[k]@,
        decreases values@.len() - i,
    {
        copies.push(values[i].clone());
        i = i + 1;
    }
    assert(text_views(copies@) =~= text_views(values@));
    sorted_unique(copies)
}

} // verus!
