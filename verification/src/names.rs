//! Lists of names in the order they are shown.

use vstd::prelude::*;
use crate::{order, text};
use crate::order::{Precedence, Ranking, ordered_places, rearranged};
use crate::text::{Standing, compare_texts, same_text};

verus! {

/// How two names stand to each other in a listing: alphabetically, with the document key before
/// every other name where a listing shows it first.
pub open spec fn name_order(a: Seq<char>, b: Seq<char>, id_first: bool) -> Standing {
    if id_first && a == "id"@ && b != "id"@ {
        Standing::Before
    } else if id_first && a != "id"@ && b == "id"@ {
        Standing::After
    } else {
        text::text_order(a, b)
    }
}

/// Whether the name at one place goes before the name at another, the earlier first where the two
/// are the same.
pub open spec fn name_before(names: Seq<Seq<char>>, id_first: bool) -> Precedence {
    |a: int, b: int|
        match name_order(names[a], names[b], id_first) {
            Standing::Before => true,
            Standing::Level => a < b,
            Standing::After => false,
        }
}

/// Whether a list is these names in listing order, taken in this order.
pub open spec fn is_listing(
    listed: Seq<Seq<char>>,
    names: Seq<Seq<char>>,
    id_first: bool,
    order: Seq<int>,
) -> bool {
    &&& order::names_each_once(order, names.len())
    &&& order::in_order(name_before(names, id_first), order)
    &&& listed == order::at_places(names, order)
}

/// Names stand in one order.
pub proof fn lemma_names_stand_in_one_order(names: Seq<Seq<char>>, id_first: bool)
    ensures
        order::is_one_order(names.len(), name_before(names, id_first)),
{
    let before = name_before(names, id_first);
    assert forall|a: int, b: int, c: int|
        0 <= a < names.len() && 0 <= b < names.len() && 0 <= c < names.len() && #[trigger] before(
            a,
            b,
        ) && #[trigger] before(b, c) implies before(a, c) by {
        text::lemma_text_order_flips(names[a], names[b]);
        text::lemma_text_order_flips(names[b], names[c]);
        text::lemma_text_order_flips(names[a], names[c]);
        if text::text_order(names[a], names[b]) == Standing::Before && text::text_order(names[b], names[c])
            == Standing::Before {
            text::lemma_text_order_chains(names[a], names[b], names[c]);
        }
    }
    assert forall|a: int, b: int|
        0 <= a < names.len() && 0 <= b < names.len() && a != b implies #[trigger] before(a, b)
        || before(b, a) by {
        text::lemma_text_order_flips(names[a], names[b]);
        text::lemma_text_order_flips(names[b], names[a]);
    }
    assert forall|a: int| 0 <= a < names.len() implies !#[trigger] before(a, a) by {
        text::lemma_text_order_flips(names[a], names[a]);
    }
}

/// A listing is one list: whoever lists the same names lists them alike.
pub proof fn law_a_listing_is_one_list(
    names: Seq<Seq<char>>,
    id_first: bool,
    listed: Seq<Seq<char>>,
    order: Seq<int>,
    other: Seq<Seq<char>>,
    other_order: Seq<int>,
)
    requires
        is_listing(listed, names, id_first, order),
        is_listing(other, names, id_first, other_order),
    ensures
        listed == other,
{
    lemma_names_stand_in_one_order(names, id_first);
    order::law_one_ordering(names.len(), name_before(names, id_first), order, other_order);
}

/// Names, ranked.
struct NameRanking<'a> {
    names: &'a Vec<String>,
    id_first: bool,
}

impl<'a> Ranking for NameRanking<'a> {
    closed spec fn size(&self) -> nat {
        self.names@.len()
    }

    closed spec fn order(&self) -> Precedence {
        name_before(text::texts(self.names@), self.id_first)
    }

    fn goes_before(&self, a: usize, b: usize) -> (before: bool) {
        let left: &str = self.names[a].as_str();
        let right: &str = self.names[b].as_str();
        assert(text::texts(self.names@)[a as int] == left@);
        assert(text::texts(self.names@)[b as int] == right@);
        let left_is_key: bool = same_text(left, "id");
        let right_is_key: bool = same_text(right, "id");
        let standing: Standing = if self.id_first && left_is_key && !right_is_key {
            Standing::Before
        } else if self.id_first && !left_is_key && right_is_key {
            Standing::After
        } else {
            compare_texts(left, right)
        };
        match standing {
            Standing::Before => true,
            Standing::Level => a < b,
            Standing::After => false,
        }
    }
}

/// The places of names in listing order.
pub fn listing_places(names: &Vec<String>, id_first: bool) -> (order: Vec<usize>)
    ensures
        order::names_each_once(order::places(order@), names@.len()),
        order::in_order(name_before(text::texts(names@), id_first), order::places(order@)),
{
    let ranking = NameRanking { names, id_first };
    let order: Vec<usize> = ordered_places(&ranking, names.len());
    proof {
        lemma_names_stand_in_one_order(text::texts(names@), id_first);
    }
    order
}

/// Puts names in listing order.
pub fn list_names(names: Vec<String>, id_first: bool) -> (listed: Vec<String>)
    ensures
        exists|order: Seq<int>| #[trigger]
            is_listing(text::texts(listed@), text::texts(names@), id_first, order),
{
    let order: Vec<usize> = listing_places(&names, id_first);
    let ghost all = names@;
    let listed: Vec<String> = rearranged(names, &order);
    proof {
        assert(text::texts(listed@) =~= order::at_places(text::texts(all), order::places(order@)));
        assert(is_listing(text::texts(listed@), text::texts(all), id_first, order::places(order@)));
    }
    listed
}

/// A listing holds the names it lists and no others.
pub proof fn lemma_listing_holds_the_same(
    listed: Seq<Seq<char>>,
    names: Seq<Seq<char>>,
    id_first: bool,
    order: Seq<int>,
)
    requires
        is_listing(listed, names, id_first, order),
    ensures
        listed.len() == names.len(),
        forall|name: Seq<char>| #[trigger] listed.contains(name) <==> names.contains(name),
{
    order::lemma_names_every_place(order, names.len());
    assert forall|name: Seq<char>| #[trigger] listed.contains(name) <==> names.contains(name) by {
        if listed.contains(name) {
            let i = choose|i: int| 0 <= i < listed.len() && listed[i] == name;
            assert(names[order[i]] == name);
        }
        if names.contains(name) {
            let k = choose|k: int| 0 <= k < names.len() && names[k] == name;
            assert(order.contains(k));
            let i = choose|i: int| 0 <= i < order.len() && order[i] == k;
            assert(listed[i] == name);
        }
    }
}

} // verus!
