//! Finding software.
use vstd::prelude::*;

use crate::denial::{deny, DenialFault, DenialResponse};
use crate::outside;
use crate::outside::unicode::{contains, to_lowercase};
use crate::software::Item;

verus! {

/// How search results are chosen.
#[derive(Clone, Copy, PartialEq, Eq, Structural)]
pub enum SearchAlg {
    HighestRated,
    LowestRated,
    MostDownloaded,
    LeastDownloaded,
    Newest,
    Oldest,
    Trending,
    HighestPrice,
    LowestPrice,
}

/// A search for software.
pub struct SearchSoftwareReq {
    pub term: String,
    pub sort_by: SearchAlg,
    pub start_index: u64,
    pub num_results: u16,
}

/// What a search tells of a piece of software.
pub struct SearchResult {
    pub title: String,
    pub item_id: u64,
    pub creation_time: u64,
}

/// The most results that can be asked for.
pub const MAX_NUM_RESULTS: u16 = 100;

/// Whether a piece of software is found: it is uploaded, and its title in
/// lower case holds the term as it is.
pub open spec fn is_hit(item: Item, term: Seq<char>) -> bool {
    item.creation_time is Some && outside::unicode::occurs_in(
        term,
        outside::unicode::lowercase(item.title@),
    )
}

/// Decides whether a piece of software is found.
fn matches_term(item: &Item, term: &String) -> (res: bool)
    ensures
        res == is_hit(*item, term@),
{
    item.creation_time.is_some() && contains(
        to_lowercase(item.title.as_str()).as_str(),
        term.as_str(),
    )
}

/// Whether results can be weighed against each other in this way. The others
/// are not supported as soon as a choice has to be made.
pub open spec fn supported(sort_by: SearchAlg) -> bool {
    sort_by is Newest || sort_by is Oldest
}

/// Whether the result with the number `a` is better than that with the number
/// `b`: the newest has the greatest number and the oldest the smallest.
pub open spec fn better(a: u64, b: u64, sort_by: SearchAlg) -> bool {
    if sort_by is Newest {
        a > b
    } else {
        a < b
    }
}

/// Decides whether one result is better than another.
fn is_better(a: u64, b: u64, sort_by: SearchAlg) -> (res: bool)
    ensures
        res == better(a, b, sort_by),
{
    match sort_by {
        SearchAlg::Newest => a > b,
        _ => a < b,
    }
}

/// What a search tells of an item that is uploaded.
pub open spec fn tells_of(result: SearchResult, item: Item) -> bool {
    &&& result.title@ == item.title@
    &&& result.item_id == item.id
    &&& item.creation_time == Some(result.creation_time)
}

/// The place of the worst of some items, the first of several: that which no
/// other is worse than.
pub open spec fn worst(items: Seq<Item>, sort_by: SearchAlg) -> int
    decreases items.len(),
{
    if items.len() <= 1 {
        0
    } else {
        let w = worst(items.drop_last(), sort_by);
        if better(items[w].id, items.last().id, sort_by) {
            items.len() - 1
        } else {
            w
        }
    }
}

/// The chosen items after one more was found: it is added while there is
/// room, and else takes the place of the worst if it is better.
pub open spec fn chosen_with(
    chosen: Seq<Item>,
    item: Item,
    capacity: int,
    sort_by: SearchAlg,
) -> Seq<Item> {
    if chosen.len() < capacity {
        chosen.push(item)
    } else if chosen.len() > 0 && better(item.id, chosen[worst(chosen, sort_by)].id, sort_by) {
        chosen.update(worst(chosen, sort_by), item)
    } else {
        chosen
    }
}

/// The items that are chosen out of a list.
pub open spec fn chosen(
    items: Seq<Item>,
    term: Seq<char>,
    capacity: int,
    sort_by: SearchAlg,
) -> Seq<Item>
    decreases items.len(),
{
    if items.len() == 0 {
        seq![]
    } else {
        let before = chosen(items.drop_last(), term, capacity, sort_by);
        if is_hit(items.last(), term) {
            chosen_with(before, items.last(), capacity, sort_by)
        } else {
            before
        }
    }
}

/// How many items of a list are found.
pub open spec fn hits(items: Seq<Item>, term: Seq<char>) -> int
    decreases items.len(),
{
    if items.len() == 0 {
        0
    } else {
        hits(items.drop_last(), term) + if is_hit(items.last(), term) {
            1int
        } else {
            0
        }
    }
}

/// How many results there are at most: no more than were asked for, and no
/// more than there are items.
pub open spec fn capacity_of(req: SearchSoftwareReq, items: Seq<Item>) -> int {
    if items.len() <= req.num_results {
        items.len() as int
    } else {
        req.num_results as int
    }
}

/// Whether a search can be answered: all that is found has room, or a choice
/// can be made among it.
pub open spec fn answerable(req: SearchSoftwareReq, items: Seq<Item>) -> bool {
    let capacity = capacity_of(req, items);
    hits(items, req.term@) <= capacity || capacity > 0 && supported(req.sort_by)
}

/// The items at the given places.
spec fn items_at(items: Seq<Item>, places: Seq<usize>) -> Seq<Item> {
    places.map_values(|place: usize| items[place as int])
}

/// The worst of some items is one of them.
proof fn lemma_worst_is_one(items: Seq<Item>, sort_by: SearchAlg)
    requires
        items.len() > 0,
    ensures
        0 <= worst(items, sort_by) < items.len(),
    decreases items.len(),
{
    if items.len() > 1 {
        lemma_worst_is_one(items.drop_last(), sort_by);
    }
}

/// There are as many chosen items as are found, up to the capacity.
proof fn lemma_chosen_len(items: Seq<Item>, term: Seq<char>, capacity: int, sort_by: SearchAlg)
    requires
        capacity >= 0,
    ensures
        0 <= hits(items, term),
        chosen(items, term, capacity, sort_by).len() == if hits(items, term) <= capacity {
            hits(items, term)
        } else {
            capacity
        },
    decreases items.len(),
{
    if items.len() > 0 {
        lemma_chosen_len(items.drop_last(), term, capacity, sort_by);
        let before = chosen(items.drop_last(), term, capacity, sort_by);
        if before.len() > 0 {
            lemma_worst_is_one(before, sort_by);
        }
    }
}

/// No fewer are found in a list than in its beginning.
proof fn lemma_hits_grow(items: Seq<Item>, term: Seq<char>, n: int)
    requires
        0 <= n <= items.len(),
    ensures
        hits(items.take(n), term) <= hits(items, term),
    decreases items.len() - n,
{
    if n == items.len() {
        assert(items.take(n) =~= items);
    } else {
        lemma_hits_grow(items, term, n + 1);
        assert(items.take(n + 1).drop_last() =~= items.take(n));
    }
}

/// Finds the worst of the items at the given places.
fn find_worst(items: &Vec<Item>, places: &Vec<usize>, sort_by: SearchAlg) -> (res: usize)
    requires
        places@.len() > 0,
        forall|j: int| 0 <= j < places@.len() ==> #[trigger] places@[j] < items@.len(),
    ensures
        res == worst(items_at(items@, places@), sort_by),
        res < places@.len(),
{
    let ghost all = items_at(items@, places@);
    let mut res: usize = 0;
    let mut i: usize = 1;
    while i < places.len()
        invariant
            1 <= i <= places@.len(),
            res < i,
            all == items_at(items@, places@),
            res == worst(all.take(i as int), sort_by),
            forall|j: int| 0 <= j < places@.len() ==> #[trigger] places@[j] < items@.len(),
        decreases places@.len() - i,
    {
        assert(all.take(i + 1).drop_last() =~= all.take(i as int));
        assert(places@[res as int] < items@.len());
        assert(places@[i as int] < items@.len());
        assert(all.take(i + 1)[res as int] == items@[places@[res as int] as int]);
        if is_better(items[places[res]].id, items[places[i]].id, sort_by) {
            res = i;
        }
        i += 1;
    }
    assert(all.take(all.len() as int) =~= all);
    res
}

/// Answers a search for software; nothing where a choice would have to be made
/// that is not supported, or among no results at all.
pub fn search_software(search_req: &SearchSoftwareReq, items: &Vec<Item>) -> (res: Option<
    Result<Vec<SearchResult>, DenialResponse>,
>)
    ensures
        if search_req.num_results > MAX_NUM_RESULTS {
            res matches Some(Err(denial)) && denial.says(
                400,
                DenialFault::User,
                "Too many results requested"@,
                "Try requesting 100 results or less"@,
            )
        } else if !answerable(*search_req, items@) {
            res is None
        } else {
            let wanted = chosen(
                items@,
                search_req.term@,
                capacity_of(*search_req, items@),
                search_req.sort_by,
            );
            &&& res matches Some(Ok(results))
            &&& results@.len() == wanted.len()
            &&& forall|i: int|
                0 <= i < wanted.len() ==> tells_of(#[trigger] results@[i], wanted[i])
        },
{
    if search_req.num_results > MAX_NUM_RESULTS {
        return Some(
            Err(
                deny(
                    400,
                    DenialFault::User,
                    "Too many results requested",
                    "Try requesting 100 results or less",
                ),
            ),
        );
    }
    let capacity: usize = if items.len() <= search_req.num_results as usize {
        items.len()
    } else {
        search_req.num_results as usize
    };
    let ghost term = search_req.term@;
    let ghost sort_by = search_req.sort_by;
    let mut places: Vec<usize> = Vec::new();
    let mut i: usize = 0;
    assert(items_at(items@, places@) =~= seq![]);
    while i < items.len()
        invariant
            i <= items@.len(),
            term == search_req.term@,
            sort_by == search_req.sort_by,
            search_req.num_results <= MAX_NUM_RESULTS,
            capacity == capacity_of(*search_req, items@),
            items_at(items@, places@) == chosen(
                items@.take(i as int),
                term,
                capacity as int,
                sort_by,
            ),
            hits(items@.take(i as int), term) > capacity ==> capacity > 0 && supported(sort_by),
            forall|j: int| 0 <= j < places@.len() ==> #[trigger] places@[j] < items@.len(),
            forall|j: int|
                0 <= j < places@.len() ==> items@[(#[trigger] places@[j]) as int].creation_time is Some,
        decreases items@.len() - i,
    {
        let ghost before = items_at(items@, places@);
        proof {
            assert(items@.take(i + 1).drop_last() =~= items@.take(i as int));
            lemma_chosen_len(items@.take(i as int), term, capacity as int, sort_by);
            lemma_chosen_len(items@.take(i + 1), term, capacity as int, sort_by);
            lemma_hits_grow(items@, term, i + 1);
        }
        if matches_term(&items[i], &search_req.term) {
            if places.len() < capacity {
                places.push(i);
                assert(items_at(items@, places@) =~= before.push(items@[i as int]));
            } else {
                let can_choose: bool = match search_req.sort_by {
                    SearchAlg::Newest => true,
                    SearchAlg::Oldest => true,
                    _ => false,
                };
                if !can_choose || capacity == 0 {
                    return None;
                }
                let w: usize = find_worst(items, &places, search_req.sort_by);
                if is_better(items[i].id, items[places[w]].id, search_req.sort_by) {
                    places.set(w, i);
                    assert(items_at(items@, places@) =~= before.update(w as int, items@[i as int]));
                }
            }
        }
        i += 1;
    }
    assert(items@.take(items@.len() as int) =~= items@);
    let mut results: Vec<SearchResult> = Vec::new();
    let mut k: usize = 0;
    let ghost wanted = items_at(items@, places@);
    while k < places.len()
        invariant
            k <= places@.len(),
            wanted == items_at(items@, places@),
            results@.len() == k,
            forall|j: int| 0 <= j < k ==> tells_of(#[trigger] results@[j], wanted[j]),
            forall|j: int| 0 <= j < places@.len() ==> #[trigger] places@[j] < items@.len(),
            forall|j: int|
                0 <= j < places@.len() ==> items@[(#[trigger] places@[j]) as int].creation_time is Some,
        decreases places@.len() - k,
    {
        assert(places@[k as int] < items@.len());
        let item = &items[places[k]];
        assert(wanted[k as int] == *item);
        results.push(
            SearchResult {
                title: item.title.clone(),
                item_id: item.id,
                creation_time: item.creation_time.unwrap(),
            },
        );
        k += 1;
    }
    Some(Ok(results))
}

/// None of some items is worse than the worst.
proof fn lemma_worst_is_worst(items: Seq<Item>, sort_by: SearchAlg)
    requires
        items.len() > 0,
    ensures
        0 <= worst(items, sort_by) < items.len(),
        forall|i: int|
            0 <= i < items.len() ==> !better(
                items[worst(items, sort_by)].id,
                (#[trigger] items[i]).id,
                sort_by,
            ),
    decreases items.len(),
{
    if items.len() > 1 {
        let shorter = items.drop_last();
        lemma_worst_is_worst(shorter, sort_by);
        assert forall|i: int| 0 <= i < items.len() implies !better(
            items[worst(items, sort_by)].id,
            (#[trigger] items[i]).id,
            sort_by,
        ) by {
            if i < shorter.len() {
                assert(items[i] == shorter[i]);
            }
        }
    }
}

/// A search gives as many results as are found, up to the number that there is
/// room for. Each of them was found, and whatever else was found is better
/// than none of them.
pub proof fn search_gives_the_best(
    items: Seq<Item>,
    term: Seq<char>,
    capacity: int,
    sort_by: SearchAlg,
)
    requires
        capacity >= 0,
    ensures
        chosen(items, term, capacity, sort_by).len() == if hits(items, term) <= capacity {
            hits(items, term)
        } else {
            capacity
        },
        forall|r: int|
            0 <= r < chosen(items, term, capacity, sort_by).len() ==> is_hit(
                #[trigger] chosen(items, term, capacity, sort_by)[r],
                term,
            ) && items.contains(chosen(items, term, capacity, sort_by)[r]),
        forall|x: int, r: int|
            0 <= x < items.len() && is_hit(items[x], term) && 0 <= r < chosen(
                items,
                term,
                capacity,
                sort_by,
            ).len() ==> chosen(items, term, capacity, sort_by).contains(#[trigger] items[x])
                || !better(
                items[x].id,
                (#[trigger] chosen(items, term, capacity, sort_by)[r]).id,
                sort_by,
            ),
    decreases items.len(),
{
    lemma_chosen_len(items, term, capacity, sort_by);
    if items.len() > 0 {
        let shorter = items.drop_last();
        let last = items.last();
        search_gives_the_best(shorter, term, capacity, sort_by);
        let before = chosen(shorter, term, capacity, sort_by);
        let after = chosen(items, term, capacity, sort_by);
        if before.len() > 0 {
            lemma_worst_is_worst(before, sort_by);
        }
        let w = worst(before, sort_by);
        assert forall|r: int| 0 <= r < after.len() implies is_hit(#[trigger] after[r], term)
            && items.contains(after[r]) by {
            if after[r] == last {
                assert(items[items.len() - 1] == last);
            } else {
                assert(after[r] == before[r]);
                let k = choose|k: int| 0 <= k < shorter.len() && shorter[k] == before[r];
                assert(items[k] == after[r]);
            }
        }
        assert forall|x: int, r: int|
            0 <= x < items.len() && is_hit(items[x], term) && 0 <= r < after.len() implies (
        after.contains(#[trigger] items[x]) || !better(
            items[x].id,
            (#[trigger] after[r]).id,
            sort_by,
        )) by {
            let item = items[x];
            if x < shorter.len() {
                assert(shorter[x] == item);
                if before.contains(item) {
                    let k = choose|k: int| 0 <= k < before.len() && before[k] == item;
                    if after.len() == before.len() && k == w && after[w] == last {
                        if r != w {
                            assert(after[r] == before[r]);
                        }
                    } else {
                        assert(after[k] == item);
                    }
                } else if before.len() > 0 {
                    assert(!better(item.id, before[w].id, sort_by));
                    if r < before.len() {
                        assert(!better(item.id, before[r].id, sort_by));
                    } else {
                        assert(after.len() > before.len());
                        assert(before.len() < capacity);
                        lemma_all_chosen(shorter, term, capacity, sort_by, x);
                    }
                } else if is_hit(last, term) && capacity > 0 {
                    lemma_all_chosen(shorter, term, capacity, sort_by, x);
                }
            } else {
                if before.len() < capacity {
                    assert(after[before.len() as int] == last);
                } else if before.len() > 0 && better(last.id, before[w].id, sort_by) {
                    assert(after[w] == last);
                } else {
                    assert(after == before);
                    assert(!better(before[w].id, before[r].id, sort_by));
                }
            }
        }
    }
}

/// Whether no two items have one id.
pub open spec fn distinct_ids(items: Seq<Item>) -> bool {
    forall|i: int, j: int|
        0 <= i < j < items.len() ==> (#[trigger] items[i]).id != (#[trigger] items[j]).id
}

/// No item is given twice.
pub proof fn search_repeats_nothing(
    items: Seq<Item>,
    term: Seq<char>,
    capacity: int,
    sort_by: SearchAlg,
)
    requires
        capacity >= 0,
        distinct_ids(items),
    ensures
        distinct_ids(chosen(items, term, capacity, sort_by)),
    decreases items.len(),
{
    if items.len() > 0 {
        let shorter = items.drop_last();
        let last = items.last();
        assert forall|i: int, j: int| 0 <= i < j < shorter.len() implies (
        #[trigger] shorter[i]).id != (#[trigger] shorter[j]).id by {
            assert(shorter[i] == items[i] && shorter[j] == items[j]);
        }
        search_repeats_nothing(shorter, term, capacity, sort_by);
        search_gives_the_best(shorter, term, capacity, sort_by);
        let before = chosen(shorter, term, capacity, sort_by);
        let after = chosen(items, term, capacity, sort_by);
        if before.len() > 0 {
            lemma_worst_is_worst(before, sort_by);
        }
        assert forall|r: int| 0 <= r < before.len() implies (#[trigger] before[r]).id
            != last.id by {
            let k = choose|k: int| 0 <= k < shorter.len() && shorter[k] == before[r];
            assert(items[k].id != items[items.len() - 1].id);
        }
        assert forall|i: int, j: int| 0 <= i < j < after.len() implies (#[trigger] after[i]).id
            != (#[trigger] after[j]).id by {
            if i < before.len() && after[i] != last {
                assert(after[i] == before[i]);
            }
            if j < before.len() && after[j] != last {
                assert(after[j] == before[j]);
            }
        }
    }
}

/// While there is room, all that is found is chosen.
proof fn lemma_all_chosen(
    items: Seq<Item>,
    term: Seq<char>,
    capacity: int,
    sort_by: SearchAlg,
    x: int,
)
    requires
        chosen(items, term, capacity, sort_by).len() < capacity,
        0 <= x < items.len(),
        is_hit(items[x], term),
    ensures
        chosen(items, term, capacity, sort_by).contains(items[x]),
    decreases items.len(),
{
    let shorter = items.drop_last();
    let before = chosen(shorter, term, capacity, sort_by);
    let after = chosen(items, term, capacity, sort_by);
    lemma_chosen_len(items, term, capacity, sort_by);
    lemma_chosen_len(shorter, term, capacity, sort_by);
    if x < shorter.len() {
        lemma_all_chosen(shorter, term, capacity, sort_by, x);
        let k = choose|k: int| 0 <= k < before.len() && before[k] == shorter[x];
        assert(after[k] == items[x]);
    } else {
        assert(after[before.len() as int] == items[x]);
    }
}

/// A piece of software is found exactly where it is uploaded and the term
/// occurs in its title in lower case. Two pieces that agree in their title and
/// in being uploaded are both found or both not, whatever else is known of them.
pub proof fn titles_decide(a: Item, b: Item, term: Seq<char>)
    ensures
        a.creation_time is None ==> !is_hit(a, term),
        a.creation_time is Some ==> (is_hit(a, term) <==> outside::unicode::occurs_in(
            term,
            outside::unicode::lowercase(a.title@),
        )),
        a.title@ == b.title@ && (a.creation_time is Some <==> b.creation_time is Some) ==> (is_hit(
            a,
            term,
        ) <==> is_hit(b, term)),
{
}

/// As many pieces of software are found as are uploaded with a title that
/// holds the term in lower case.
pub proof fn all_hits_are_counted(items: Seq<Item>, term: Seq<char>)
    ensures
        hits(items, term) == items.filter(
            |item: Item|
                item.creation_time is Some && outside::unicode::occurs_in(
                    term,
                    outside::unicode::lowercase(item.title@),
                ),
        ).len(),
    decreases items.len(),
{
    reveal(Seq::filter);
    if items.len() > 0 {
        all_hits_are_counted(items.drop_last(), term);
    }
}

/// Where there is room for all that is found, the results are all uploaded
/// software whose title holds the term in lower case, in the order in which
/// it is listed.
pub proof fn all_are_given_where_there_is_room(
    items: Seq<Item>,
    term: Seq<char>,
    capacity: int,
    sort_by: SearchAlg,
)
    requires
        capacity >= 0,
    ensures
        ({
            let all = items.filter(
                |item: Item|
                    item.creation_time is Some && outside::unicode::occurs_in(
                        term,
                        outside::unicode::lowercase(item.title@),
                    ),
            );
            all.len() <= capacity ==> chosen(items, term, capacity, sort_by) == all
        }),
    decreases items.len(),
{
    let found = |item: Item|
        item.creation_time is Some && outside::unicode::occurs_in(
            term,
            outside::unicode::lowercase(item.title@),
        );
    reveal(Seq::filter);
    if items.len() > 0 {
        let shorter = items.drop_last();
        all_are_given_where_there_is_room(shorter, term, capacity, sort_by);
        assert(found(items.last()) == is_hit(items.last(), term));
        if found(items.last()) {
            assert(items.filter(found) =~= shorter.filter(found).push(items.last()));
        }
    } else {
        assert(items.filter(found) =~= seq![]);
    }
}

/// Where a choice has to be made, whatever else was found has no greater number
/// than any of the newest that are given, and no smaller number than any of the
/// oldest.
pub proof fn newest_and_oldest_are_given(
    items: Seq<Item>,
    term: Seq<char>,
    capacity: int,
    sort_by: SearchAlg,
    x: int,
    r: int,
)
    requires
        capacity >= 0,
        0 <= x < items.len(),
        items[x].creation_time is Some,
        0 <= r < chosen(items, term, capacity, sort_by).len(),
        !chosen(items, term, capacity, sort_by).contains(items[x]),
    ensures
        outside::unicode::occurs_in(term, outside::unicode::lowercase(items[x].title@)) ==> {
            &&& sort_by is Newest ==> items[x].id <= chosen(items, term, capacity, sort_by)[r].id
            &&& sort_by is Oldest ==> items[x].id >= chosen(items, term, capacity, sort_by)[r].id
        },
{
    search_gives_the_best(items, term, capacity, sort_by);
    let given = chosen(items, term, capacity, sort_by);
    if is_hit(items[x], term) {
        assert(given.contains(items[x]) || !better(items[x].id, given[r].id, sort_by));
    }
}

/// No search gives more results than were asked for or than there are items,
/// and fewer than both only where fewer were found.
pub proof fn as_many_as_asked_for(req: SearchSoftwareReq, items: Seq<Item>)
    ensures
        ({
            let given = chosen(items, req.term@, capacity_of(req, items), req.sort_by);
            &&& given.len() <= req.num_results
            &&& given.len() <= hits(items, req.term@) <= items.len()
            &&& given.len() == req.num_results || given.len() == hits(items, req.term@)
        }),
{
    lemma_chosen_len(items, req.term@, capacity_of(req, items), req.sort_by);
    lemma_hits_are_items(items, req.term@);
}

proof fn lemma_hits_are_items(items: Seq<Item>, term: Seq<char>)
    ensures
        hits(items, term) <= items.len(),
    decreases items.len(),
{
    if items.len() > 0 {
        lemma_hits_are_items(items.drop_last(), term);
    }
}

/// A search is answered where no more was found than was asked for, and, unless
/// nothing at all was asked for, for the newest and the oldest always; a choice
/// of another kind is not made.
pub proof fn searches_that_are_answered(req: SearchSoftwareReq, items: Seq<Item>)
    ensures
        hits(items, req.term@) <= req.num_results ==> answerable(req, items),
        hits(items, req.term@) > req.num_results ==> (answerable(req, items) <==> req.num_results
            > 0 && (req.sort_by is Newest || req.sort_by is Oldest)),
{
    lemma_hits_are_items(items, req.term@);
}

/// A result tells the title, the number and the time of the upload.
pub proof fn results_tell_the_truth(result: SearchResult, item: Item)
    ensures
        tells_of(result, item) <==> {
            &&& result.title@ == item.title@
            &&& result.item_id == item.id
            &&& item.creation_time is Some && item.creation_time->0 == result.creation_time
        },
{
}

/// A hundred results can be asked for at once.
pub proof fn hundred_results_at_most()
    ensures
        MAX_NUM_RESULTS == 100,
{
}

/// Whatever stands before the worst item is better than it.
proof fn lemma_worst_is_first(items: Seq<Item>, sort_by: SearchAlg)
    requires
        items.len() > 0,
    ensures
        forall|i: int|
            0 <= i < worst(items, sort_by) ==> better(
                (#[trigger] items[i]).id,
                items[worst(items, sort_by)].id,
                sort_by,
            ),
    decreases items.len(),
{
    if items.len() > 1 {
        let shorter = items.drop_last();
        lemma_worst_is_first(shorter, sort_by);
        lemma_worst_is_worst(shorter, sort_by);
        let w = worst(shorter, sort_by);
        assert forall|i: int| 0 <= i < worst(items, sort_by) implies better(
            (#[trigger] items[i]).id,
            items[worst(items, sort_by)].id,
            sort_by,
        ) by {
            assert(items[i] == shorter[i]);
            assert(!better(shorter[w].id, shorter[i].id, sort_by));
        }
    }
}

/// One more result is added at the end while there is room. Without room a
/// newer one takes the place of the first of the oldest, and an older one the
/// place of the first of the newest, as the search asks for; the others stay in
/// their places.
pub proof fn worst_results_give_way(
    given: Seq<Item>,
    item: Item,
    capacity: int,
    sort_by: SearchAlg,
    w: int,
)
    requires
        0 <= w < given.len(),
    ensures
        given.len() < capacity ==> chosen_with(given, item, capacity, sort_by) == given.push(item),
        given.len() >= capacity && sort_by is Newest && (forall|i: int|
            0 <= i < given.len() ==> given[w].id <= (#[trigger] given[i]).id) && (forall|i: int|
            0 <= i < w ==> given[w].id < (#[trigger] given[i]).id) ==> chosen_with(
            given,
            item,
            capacity,
            sort_by,
        ) == if item.id > given[w].id {
            given.update(w, item)
        } else {
            given
        },
        given.len() >= capacity && sort_by is Oldest && (forall|i: int|
            0 <= i < given.len() ==> given[w].id >= (#[trigger] given[i]).id) && (forall|i: int|
            0 <= i < w ==> given[w].id > (#[trigger] given[i]).id) ==> chosen_with(
            given,
            item,
            capacity,
            sort_by,
        ) == if item.id < given[w].id {
            given.update(w, item)
        } else {
            given
        },
{
    lemma_worst_is_first(given, sort_by);
    lemma_worst_is_worst(given, sort_by);
    let v = worst(given, sort_by);
    assert(!better(given[v].id, given[w].id, sort_by));
    if w < v {
        assert(better(given[w].id, given[v].id, sort_by));
    }
}

/// Items are looked at one by one: an uploaded one whose title holds the term
/// in lower case is weighed against those that are chosen already, and any
/// other is passed over.
pub proof fn results_are_chosen_one_by_one(
    items: Seq<Item>,
    item: Item,
    term: Seq<char>,
    capacity: int,
    sort_by: SearchAlg,
)
    ensures
        chosen(items.push(item), term, capacity, sort_by) == if item.creation_time is Some
            && outside::unicode::occurs_in(term, outside::unicode::lowercase(item.title@)) {
            chosen_with(chosen(items, term, capacity, sort_by), item, capacity, sort_by)
        } else {
            chosen(items, term, capacity, sort_by)
        },
{
    assert(items.push(item).drop_last() =~= items);
}

} // verus!
