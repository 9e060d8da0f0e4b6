//! Launchable items and the filtered view of them that a query selects.

use crate::matching::fuzzy;
use crate::matching::fuzzy_match;
use vstd::prelude::*;

verus! {

/// One launchable entry.
#[derive(Debug)]
pub struct Item {
    /// The name that is shown and searched.
    pub name: String,
    /// The command that is run, or printed, when the item is chosen.
    pub command: String,
    /// A description; empty where the source gives none.
    pub comment: String,
    /// The icon as raw RGBA bytes, `icon_w` by `icon_h` pixels.
    pub icon_data: Option<Vec<u8>>,
    pub icon_w: u32,
    pub icon_h: u32,
    /// Whether the command has to run inside a terminal.
    pub terminal: bool,
    /// The stable identity by which usage is remembered; empty where the item has none.
    pub desktop_id: String,
}

/// Whether `item` passes the query: its name matches, or, where descriptions are
/// searched too, its description does.
pub open spec fn passes(item: Item, query: Seq<char>, search_comments: bool) -> bool {
    fuzzy(item.name@, query) || (search_comments && fuzzy(item.comment@, query))
}

/// Whether `item` belongs to the filtered view of `query`: an empty query keeps
/// every item.
pub open spec fn kept(item: Item, query: Seq<char>, search_comments: bool) -> bool {
    query.len() == 0 || passes(item, query, search_comments)
}

/// The filtered view: the indices of the items that `query` keeps, in the order of
/// the items.
pub open spec fn filter_view(items: Seq<Item>, query: Seq<char>, search_comments: bool) -> Seq<usize>
    decreases items.len(),
{
    if items.len() == 0 {
        Seq::empty()
    } else {
        let rest = filter_view(items.drop_last(), query, search_comments);
        if kept(items.last(), query, search_comments) {
            rest.push((items.len() - 1) as usize)
        } else {
            rest
        }
    }
}

/// Every index of the filtered view is the index of an item that the query keeps,
/// and the indices rise strictly: two kept items stand in the view in the order in
/// which they stand among the items, and none stands there twice.
pub proof fn lemma_filter_view_sound(items: Seq<Item>, query: Seq<char>, search_comments: bool)
    requires
        items.len() <= usize::MAX,
    ensures
        filter_view(items, query, search_comments).len() <= items.len(),
        forall|k: int|
            0 <= k < filter_view(items, query, search_comments).len() ==> {
                let i = #[trigger] filter_view(items, query, search_comments)[k];
                i < items.len() && kept(items[i as int], query, search_comments)
            },
        forall|j: int, k: int|
            0 <= j < k < filter_view(items, query, search_comments).len() ==> filter_view(
                items, query, search_comments,
            )[j] < filter_view(items, query, search_comments)[k],
    decreases items.len(),
{
    if items.len() > 0 {
        lemma_filter_view_sound(items.drop_last(), query, search_comments);
    }
}

/// Every item that the query keeps has its index in the filtered view.
pub proof fn lemma_filter_view_complete(
    items: Seq<Item>,
    query: Seq<char>,
    search_comments: bool,
    i: int,
)
    requires
        items.len() <= usize::MAX,
        0 <= i < items.len(),
        kept(items[i], query, search_comments),
    ensures
        filter_view(items, query, search_comments).contains(i as usize),
    decreases items.len(),
{
    let rest = filter_view(items.drop_last(), query, search_comments);
    if i == items.len() - 1 {
        assert(rest.push(i as usize)[rest.len() as int] == i as usize);
    } else {
        lemma_filter_view_complete(items.drop_last(), query, search_comments, i);
        let k = choose|k: int| 0 <= k < rest.len() && rest[k] == i as usize;
        assert(filter_view(items, query, search_comments)[k] == i as usize);
    }
}

/// The filtered view of the empty query holds every index once, in order.
pub proof fn lemma_filter_view_of_empty_query(items: Seq<Item>, search_comments: bool)
    requires
        items.len() <= usize::MAX,
    ensures
        filter_view(items, Seq::empty(), search_comments) == Seq::new(
            items.len(),
            |i: int| i as usize,
        ),
    decreases items.len(),
{
    if items.len() > 0 {
        lemma_filter_view_of_empty_query(items.drop_last(), search_comments);
    }
    assert(filter_view(items, Seq::empty(), search_comments) =~= Seq::new(
        items.len(),
        |i: int| i as usize,
    ));
}

/// Computes the filtered view of `items` for `query`.
pub fn filter(items: &Vec<Item>, query: &str, search_comments: bool) -> (view: Vec<usize>)
    ensures
        view@ == filter_view(items@, query@, search_comments),
{
    let mut view: Vec<usize> = Vec::new();
    let all = query.is_empty();
    let mut i: usize = 0;
    assert(items@.take(0) == Seq::<Item>::empty());
    while i < items.len()
        invariant
            i <= items.len(),
            all == (query@.len() == 0),
            view@ == filter_view(items@.take(i as int), query@, search_comments),
        decreases items.len() - i,
    {
        let keep = all || fuzzy_match(items[i].name.as_str(), query) || (search_comments
            && fuzzy_match(items[i].comment.as_str(), query));
        assert(items@.take(i + 1).drop_last() == items@.take(i as int));
        if keep {
            view.push(i);
        }
        i += 1;
    }
    assert(items@.take(items.len() as int) == items@);
    view
}

/// Filtering keeps the order of the items: two items of the view of a query stand
/// in it in the order in which they stand in the view of the empty query, where
/// every item stands at its own index.
pub proof fn lemma_filter_view_keeps_order(
    items: Seq<Item>,
    query: Seq<char>,
    search_comments: bool,
    j: int,
    k: int,
)
    requires
        items.len() <= usize::MAX,
        0 <= j < k < filter_view(items, query, search_comments).len(),
    ensures
        ({
            let view = filter_view(items, query, search_comments);
            let all = filter_view(items, Seq::empty(), search_comments);
            &&& view[j] < view[k] < all.len()
            &&& all[view[j] as int] == view[j]
            &&& all[view[k] as int] == view[k]
        }),
{
    lemma_filter_view_sound(items, query, search_comments);
    lemma_filter_view_of_empty_query(items, search_comments);
}

} // verus!
