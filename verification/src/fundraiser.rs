//! Fundraisers: who may open one, and how they are found.
use core::cmp::Ordering;

use vstd::prelude::*;

use rayon::slice::ParallelSliceMut;

use crate::auth;
use crate::auth::{is_authorized, AuthCookie};
use crate::denial::{deny, deny_unauthorized, DenialFault, DenialResponse};
use crate::money::FinancialInfo;
use crate::outside;
use crate::outside::unicode::{compare_text, contains, to_lowercase};

verus! {

/// A payment from a user to a fundraiser.
pub struct InternalTransfer {
    pub origin: String,
    pub receiver_fundraiser: u64,
    pub transfer_time: u64,
    pub amt: u64,
}

/// What a user asks for when they open a fundraiser.
pub struct CreateFundraiserReq {
    pub username: String,
    pub auth_cookie: String,
    pub fundraiser_name: String,
    pub purpose: String,
    pub goal: u64,
}

/// A fundraiser and what it has been paid.
pub struct Fundraiser {
    pub name: String,
    pub owner: String,
    pub goal: u64,
    pub fundraiser_id: u64,
    pub purpose: String,
    pub payments: Vec<InternalTransfer>,
}

/// The amounts of some payments together.
pub open spec fn payments_total(payments: Seq<InternalTransfer>) -> int
    decreases payments.len(),
{
    if payments.len() == 0 {
        0
    } else {
        payments_total(payments.drop_last()) + payments.last().amt
    }
}

/// No sum of payments is below zero.
pub proof fn payments_are_positive(payments: Seq<InternalTransfer>)
    ensures
        payments_total(payments) >= 0,
    decreases payments.len(),
{
    if payments.len() > 0 {
        payments_are_positive(payments.drop_last());
    }
}

/// The first payments are worth no more than all of them.
proof fn lemma_payments_grow(payments: Seq<InternalTransfer>, n: int)
    requires
        0 <= n <= payments.len(),
    ensures
        0 <= payments_total(payments.take(n)) <= payments_total(payments),
    decreases payments.len(),
{
    if n == payments.len() {
        assert(payments.take(n) =~= payments);
        if n > 0 {
            lemma_payments_grow(payments.drop_last(), n - 1);
        }
    } else {
        lemma_payments_grow(payments.drop_last(), n);
        assert(payments.drop_last().take(n) =~= payments.take(n));
    }
}

impl Fundraiser {
    /// What this fundraiser has been paid.
    pub open spec fn earned(self) -> int {
        payments_total(self.payments@)
    }

    /// Adds all payments up.
    pub fn amt_earned(&self) -> (res: u64)
        requires
            self.earned() <= u64::MAX,
        ensures
            res == self.earned(),
    {
        let mut total: u64 = 0;
        let mut i: usize = 0;
        while i < self.payments.len()
            invariant
                i <= self.payments@.len(),
                total == payments_total(self.payments@.take(i as int)),
                payments_total(self.payments@) <= u64::MAX,
            decreases self.payments@.len() - i,
        {
            proof {
                lemma_payments_grow(self.payments@, i + 1);
                assert(self.payments@.take(i + 1).drop_last() =~= self.payments@.take(i as int));
            }
            total += self.payments[i].amt;
            i += 1;
        }
        assert(self.payments@.take(self.payments@.len() as int) =~= self.payments@);
        total
    }

    /// Adds all payments up, unless they come to more than a number can hold.
    pub fn checked_amt_earned(&self) -> (res: Option<u64>)
        ensures
            res is Some <==> self.earned() <= u64::MAX,
            res matches Some(total) ==> total == self.earned(),
    {
        let mut total: u64 = 0;
        let mut i: usize = 0;
        while i < self.payments.len()
            invariant
                i <= self.payments@.len(),
                total == payments_total(self.payments@.take(i as int)),
            decreases self.payments@.len() - i,
        {
            proof {
                lemma_payments_grow(self.payments@, i + 1);
                assert(self.payments@.take(i + 1).drop_last() =~= self.payments@.take(i as int));
            }
            total = match total.checked_add(self.payments[i].amt) {
                Some(sum) => sum,
                None => return None,
            };
            i += 1;
        }
        assert(self.payments@.take(self.payments@.len() as int) =~= self.payments@);
        Some(total)
    }

    /// The fundraiser that `req` asks for. It gets the next number, which is
    /// used up by that; the numbers begin again at 0 behind the greatest one.
    pub fn from_req(req: &CreateFundraiserReq, current_fundraiser_id: &mut u64) -> (res: Self)
        ensures
            res.name@ == req.fundraiser_name@,
            res.owner@ == req.username@,
            res.goal == req.goal,
            res.fundraiser_id == *old(current_fundraiser_id),
            res.purpose@ == req.purpose@,
            res.payments@.len() == 0,
            *final(current_fundraiser_id) == (if *old(current_fundraiser_id) == u64::MAX {
                0
            } else {
                *old(current_fundraiser_id) + 1
            }),
            is_as_asked_for(res, *req, *old(current_fundraiser_id)),
            *final(current_fundraiser_id) == number_after(*old(current_fundraiser_id)),
    {
        let fundraiser_id: u64 = *current_fundraiser_id;
        *current_fundraiser_id = fundraiser_id.wrapping_add(1);
        Fundraiser {
            name: req.fundraiser_name.clone(),
            owner: req.username.clone(),
            goal: req.goal,
            fundraiser_id,
            purpose: req.purpose.clone(),
            payments: Vec::new(),
        }
    }
}

impl Clone for InternalTransfer {
    fn clone(&self) -> (res: Self)
        ensures
            res == *self,
    {
        InternalTransfer {
            origin: self.origin.clone(),
            receiver_fundraiser: self.receiver_fundraiser,
            transfer_time: self.transfer_time,
            amt: self.amt,
        }
    }
}

impl Clone for Fundraiser {
    fn clone(&self) -> (res: Self)
        ensures
            res.name == self.name,
            res.owner == self.owner,
            res.goal == self.goal,
            res.fundraiser_id == self.fundraiser_id,
            res.purpose == self.purpose,
            res.payments@ == self.payments@,
    {
        let mut payments: Vec<InternalTransfer> = Vec::new();
        let mut i: usize = 0;
        while i < self.payments.len()
            invariant
                i <= self.payments@.len(),
                payments@ =~= self.payments@.take(i as int),
            decreases self.payments@.len() - i,
        {
            payments.push(self.payments[i].clone());
            i += 1;
        }
        Fundraiser {
            name: self.name.clone(),
            owner: self.owner.clone(),
            goal: self.goal,
            fundraiser_id: self.fundraiser_id,
            purpose: self.purpose.clone(),
            payments,
        }
    }
}

/// The most fundraisers that a user may have open.
pub const MAX_FUNDRAISERS: usize = 5;

/// A fundraiser that was opened: it is to be stored under its name, `next_id`
/// as the next number, and the account of its owner.
pub struct OpenedFundraiser {
    pub fundraiser: Fundraiser,
    pub next_id: u64,
    pub financial_info: FinancialInfo,
}

/// Answers a request to open a fundraiser. A number is used up as soon as the
/// user is known, also where the request is then refused.
pub fn create_fundraiser(
    create_fund_req: &CreateFundraiserReq,
    user_exists: bool,
    stored: &Option<AuthCookie>,
    name_taken: bool,
    financial_info: Option<FinancialInfo>,
    current_fundraiser_id: &mut u64,
) -> (res: Result<OpenedFundraiser, DenialResponse>)
    requires
        auth::authorized(user_exists, create_fund_req.auth_cookie@, *stored) && !name_taken ==> (
        financial_info matches Some(info) && (info.active_fundraisers@.len() < MAX_FUNDRAISERS
            ==> *old(current_fundraiser_id) < u64::MAX)),
    ensures
        *final(current_fundraiser_id) == (if !auth::authorized(
            user_exists,
            create_fund_req.auth_cookie@,
            *stored,
        ) {
            *old(current_fundraiser_id) as int
        } else if *old(current_fundraiser_id) == u64::MAX {
            0
        } else {
            *old(current_fundraiser_id) + 1
        }),
        if !auth::authorized(user_exists, create_fund_req.auth_cookie@, *stored) {
            res matches Err(denial) && denial.says_unauthorized()
        } else if name_taken {
            res matches Err(denial) && denial.says(
                400,
                DenialFault::User,
                "The given fundraiser name already exists"@,
                "Please pick a different name for your fundraiser"@,
            )
        } else if financial_info->0.active_fundraisers@.len() >= MAX_FUNDRAISERS {
            res matches Err(denial) && denial.says(
                400,
                DenialFault::User,
                "You can only have a maximum of 5 fundraisers"@,
                "Please delete or archive an existing fundraiser or wait for it to reach its goal"@,
            )
        } else {
            &&& res matches Ok(opened)
            &&& opened.fundraiser.name@ == create_fund_req.fundraiser_name@
            &&& opened.fundraiser.owner@ == create_fund_req.username@
            &&& opened.fundraiser.goal == create_fund_req.goal
            &&& opened.fundraiser.fundraiser_id == *old(current_fundraiser_id)
            &&& opened.fundraiser.purpose@ == create_fund_req.purpose@
            &&& opened.fundraiser.payments@.len() == 0
            &&& opened.next_id == *old(current_fundraiser_id) + 1
            &&& opened.financial_info == (FinancialInfo {
                active_fundraisers: opened.financial_info.active_fundraisers,
                ..financial_info->0
            })
            &&& opened.financial_info.active_fundraisers@.len()
                == financial_info->0.active_fundraisers@.len() + 1
            &&& opened.financial_info.active_fundraisers@.len() <= MAX_FUNDRAISERS
            &&& opened.financial_info.active_fundraisers@.drop_last()
                == financial_info->0.active_fundraisers@
            &&& same_fundraiser(
                opened.financial_info.active_fundraisers@.last(),
                opened.fundraiser,
            )
        },
        res is Ok <==> may_open(
            auth::authorized(user_exists, create_fund_req.auth_cookie@, *stored),
            name_taken,
            financial_info->0.active_fundraisers@.len() as int,
        ),
        res matches Ok(opened) ==> is_as_asked_for(
            opened.fundraiser,
            *create_fund_req,
            *old(current_fundraiser_id),
        ),
{
    if !is_authorized(user_exists, &create_fund_req.auth_cookie, stored) {
        return Err(deny_unauthorized());
    }
    let fundraiser = Fundraiser::from_req(create_fund_req, current_fundraiser_id);
    if name_taken {
        return Err(
            deny(
                400,
                DenialFault::User,
                "The given fundraiser name already exists",
                "Please pick a different name for your fundraiser",
            ),
        );
    }
    let mut info = financial_info.unwrap();
    if info.active_fundraisers().len() >= MAX_FUNDRAISERS {
        return Err(
            deny(
                400,
                DenialFault::User,
                "You can only have a maximum of 5 fundraisers",
                "Please delete or archive an existing fundraiser or wait for it to reach its goal",
            ),
        );
    }
    let copy = fundraiser.clone();
    let ghost before = info.active_fundraisers@;
    info.add_fundraiser(copy);
    assert(info.active_fundraisers@.drop_last() =~= before);
    let next_id: u64 = fundraiser.fundraiser_id + 1;
    Ok(OpenedFundraiser { fundraiser, next_id, financial_info: info })
}

/// Whether two fundraisers are the same in all parts.
pub open spec fn same_fundraiser(a: Fundraiser, b: Fundraiser) -> bool {
    &&& a.name@ == b.name@
    &&& a.owner@ == b.owner@
    &&& a.goal == b.goal
    &&& a.fundraiser_id == b.fundraiser_id
    &&& a.purpose@ == b.purpose@
    &&& a.payments@ == b.payments@
}

/// How search results are ordered.
#[derive(Clone, Copy, PartialEq, Eq, Structural)]
pub enum SearchFundraiserOrder {
    Alphabetical,
    MostFunded,
    LeastFunded,
    LowestGoal,
    HighestGoal,
}

/// A search for fundraisers.
pub struct SearchFundraisersReq {
    pub query: String,
    pub max_num_results: u64,
    pub order: SearchFundraiserOrder,
}

/// What a search tells of a fundraiser.
pub struct SearchFundraiserRes {
    pub name: String,
    pub purpose: String,
    pub owner: String,
    pub goal: u64,
    pub amt_earned: u64,
}

/// A fundraiser as the database hands it out, with the name that it is stored
/// under.
pub struct StoredFundraiser {
    pub key: String,
    pub fundraiser: Fundraiser,
}

/// Whether a fundraiser is found by a query in lower case: by the name that it
/// is stored under as it is, by its purpose and its owner in lower case.
pub open spec fn matches_query(stored: StoredFundraiser, query: Seq<char>) -> bool {
    ||| outside::unicode::occurs_in(query, stored.key@)
    ||| outside::unicode::occurs_in(
        query,
        outside::unicode::lowercase(stored.fundraiser.purpose@),
    )
    ||| outside::unicode::occurs_in(query, outside::unicode::lowercase(stored.fundraiser.owner@))
}

/// Decides whether a fundraiser is found by a query in lower case.
fn is_match(stored: &StoredFundraiser, query: &String) -> (res: bool)
    ensures
        res == matches_query(*stored, query@),
{
    contains(stored.key.as_str(), query.as_str()) || contains(
        to_lowercase(stored.fundraiser.purpose.as_str()).as_str(),
        query.as_str(),
    ) || contains(to_lowercase(stored.fundraiser.owner.as_str()).as_str(), query.as_str())
}

/// The first `max` fundraisers that a query finds, in their order.
pub open spec fn found(
    list: Seq<StoredFundraiser>,
    query: Seq<char>,
    max: int,
) -> Seq<StoredFundraiser>
    decreases list.len(),
{
    if list.len() == 0 {
        seq![]
    } else {
        let before = found(list.drop_last(), query, max);
        if before.len() < max && matches_query(list.last(), query) {
            before.push(list.last())
        } else {
            before
        }
    }
}

/// Whether a search result tells of the fundraiser.
pub open spec fn tells_of(result: SearchFundraiserRes, stored: StoredFundraiser) -> bool {
    &&& result.name == stored.fundraiser.name
    &&& result.purpose == stored.fundraiser.purpose
    &&& result.owner == stored.fundraiser.owner
    &&& result.goal == stored.fundraiser.goal
    &&& result.amt_earned == stored.fundraiser.earned()
}

/// Whether the result `a` must come before the result `b`.
pub open spec fn result_before(
    a: SearchFundraiserRes,
    b: SearchFundraiserRes,
    order: SearchFundraiserOrder,
) -> bool {
    match order {
        SearchFundraiserOrder::Alphabetical => outside::unicode::text_before(a.name@, b.name@),
        SearchFundraiserOrder::MostFunded => a.amt_earned > b.amt_earned,
        SearchFundraiserOrder::LeastFunded => a.amt_earned < b.amt_earned,
        SearchFundraiserOrder::LowestGoal => a.goal < b.goal,
        SearchFundraiserOrder::HighestGoal => a.goal > b.goal,
    }
}

/// Compares two numbers.
fn compare_numbers(a: u64, b: u64) -> (res: Ordering)
    ensures
        res == Ordering::Less <==> a < b,
        res == Ordering::Greater <==> a > b,
{
    if a < b {
        Ordering::Less
    } else if a > b {
        Ordering::Greater
    } else {
        Ordering::Equal
    }
}

/// Compares two results.
pub fn compare_results(
    a: &SearchFundraiserRes,
    b: &SearchFundraiserRes,
    order: SearchFundraiserOrder,
) -> (res: Ordering)
    ensures
        res == Ordering::Less <==> result_before(*a, *b, order),
        res == Ordering::Greater <==> result_before(*b, *a, order),
{
    match order {
        SearchFundraiserOrder::Alphabetical => compare_text(a.name.as_str(), b.name.as_str()),
        SearchFundraiserOrder::MostFunded => compare_numbers(b.amt_earned, a.amt_earned),
        SearchFundraiserOrder::LeastFunded => compare_numbers(a.amt_earned, b.amt_earned),
        SearchFundraiserOrder::LowestGoal => compare_numbers(a.goal, b.goal),
        SearchFundraiserOrder::HighestGoal => compare_numbers(b.goal, a.goal),
    }
}

/// Calls `rayon::slice::ParallelSliceMut::par_sort_unstable_by`: the same
/// results come out, and none stands behind one that it must come before.
/// Results that are equal in the order may come out either way.
#[verifier::external_body]
fn sort_results(results: &mut Vec<SearchFundraiserRes>, order: SearchFundraiserOrder)
    ensures
        final(results)@.to_multiset() == old(results)@.to_multiset(),
        forall|i: int, j: int|
            0 <= i < j < final(results)@.len() ==> !result_before(
                #[trigger] final(results)@[j],
                #[trigger] final(results)@[i],
                order,
            ),
{
    results.par_sort_unstable_by(|a, b| compare_results(a, b, order));
}

/// Whether `results` tell of the given fundraisers, one by one.
pub open spec fn tell_of_all(
    results: Seq<SearchFundraiserRes>,
    list: Seq<StoredFundraiser>,
) -> bool {
    &&& results.len() == list.len()
    &&& forall|i: int| 0 <= i < list.len() ==> tells_of(#[trigger] results[i], list[i])
}

/// Answers a search for fundraisers; nothing where what a found fundraiser has
/// earned does not fit a number. The results are the first that are found, and
/// only those are then brought into the wanted order.
pub fn search_fundraisers(
    search_req: &SearchFundraisersReq,
    fundraisers: &Vec<StoredFundraiser>,
) -> (res: Option<Result<Vec<SearchFundraiserRes>, DenialResponse>>)
    ensures
        ({
            let hits = found(
                fundraisers@,
                outside::unicode::lowercase(search_req.query@),
                search_req.max_num_results as int,
            );
            if search_req.max_num_results > 100 {
                res matches Some(Err(denial)) && denial.says(
                    400,
                    DenialFault::User,
                    "We can only return a maximum of 100 results at a time"@,
                    "Please request a lower number"@,
                )
            } else if exists|i: int|
                0 <= i < hits.len() && (#[trigger] hits[i]).fundraiser.earned() > u64::MAX {
                res is None
            } else {
                &&& res matches Some(Ok(results))
                &&& exists|unsorted: Seq<SearchFundraiserRes>| #[trigger]
                    tell_of_all(unsorted, hits) && unsorted.to_multiset() == results@.to_multiset()
                &&& forall|i: int, j: int|
                    0 <= i < j < results@.len() ==> !result_before(
                        #[trigger] results@[j],
                        #[trigger] results@[i],
                        search_req.order,
                    )
            }
        }),
{
    if search_req.max_num_results > 100 {
        return Some(
            Err(
                deny(
                    400,
                    DenialFault::User,
                    "We can only return a maximum of 100 results at a time",
                    "Please request a lower number",
                ),
            ),
        );
    }
    let query: String = to_lowercase(search_req.query.as_str());
    let max: usize = search_req.max_num_results as usize;
    let ghost q = query@;
    let mut results: Vec<SearchFundraiserRes> = Vec::new();
    let mut i: usize = 0;
    while i < fundraisers.len()
        invariant
            i <= fundraisers@.len(),
            q == query@,
            tell_of_all(results@, found(fundraisers@.take(i as int), q, max as int)),
            forall|j: int|
                0 <= j < results@.len() ==> (#[trigger] found(
                    fundraisers@.take(i as int),
                    q,
                    max as int,
                )[j]).fundraiser.earned() <= u64::MAX,
            q == outside::unicode::lowercase(search_req.query@),
            max == search_req.max_num_results,
            max <= 100,
        decreases fundraisers@.len() - i,
    {
        let ghost before = found(fundraisers@.take(i as int), q, max as int);
        assert(fundraisers@.take(i + 1).drop_last() =~= fundraisers@.take(i as int));
        if results.len() < max && is_match(&fundraisers[i], &query) {
            let hit = &fundraisers[i];
            match hit.fundraiser.checked_amt_earned() {
                Some(amt_earned) => {
                    let ghost old_results = results@;
                    results.push(
                        SearchFundraiserRes {
                            name: hit.fundraiser.name.clone(),
                            purpose: hit.fundraiser.purpose.clone(),
                            owner: hit.fundraiser.owner.clone(),
                            goal: hit.fundraiser.goal,
                            amt_earned,
                        },
                    );
                    assert(found(fundraisers@.take(i + 1), q, max as int) == before.push(*hit));
                    assert forall|j: int| 0 <= j < before.len() implies tells_of(
                        #[trigger] results@[j],
                        before[j],
                    ) by {
                        assert(old_results[j] == results@[j]);
                    }
                },
                None => {
                    proof {
                        lemma_found_keeps(fundraisers@, q, max as int, i + 1);
                        let all = found(fundraisers@, q, max as int);
                        assert(found(fundraisers@.take(i + 1), q, max as int).last() == *hit);
                        assert(all[before.len() as int].fundraiser.earned() > u64::MAX);
                    }
                    return None;
                },
            }
        }
        i += 1;
    }
    assert(fundraisers@.take(fundraisers@.len() as int) =~= fundraisers@);
    let ghost unsorted = results@;
    sort_results(&mut results, search_req.order);
    assert(tell_of_all(unsorted, found(fundraisers@, q, max as int)));
    Some(Ok(results))
}

/// What is found in the beginning of a list is found first in the whole list.
proof fn lemma_found_keeps(list: Seq<StoredFundraiser>, query: Seq<char>, max: int, n: int)
    requires
        0 <= n <= list.len(),
    ensures
        found(list.take(n), query, max).is_prefix_of(found(list, query, max)),
    decreases list.len() - n,
{
    if n == list.len() {
        assert(list.take(n) =~= list);
    } else {
        lemma_found_keeps(list, query, max, n + 1);
        assert(list.take(n + 1).drop_last() =~= list.take(n));
    }
}

/// A search gives no more results than were asked for, and each of them was
/// found by the query. Where fewer came than were asked for, nothing that the
/// query finds is missing.
pub proof fn search_is_bounded(list: Seq<StoredFundraiser>, query: Seq<char>, max: int)
    requires
        max >= 0,
    ensures
        found(list, query, max).len() <= max,
        forall|i: int|
            0 <= i < found(list, query, max).len() ==> matches_query(
                #[trigger] found(list, query, max)[i],
                query,
            ) && list.contains(found(list, query, max)[i]),
        found(list, query, max).len() < max ==> found(list, query, max) == list.filter(
            |stored: StoredFundraiser| matches_query(stored, query),
        ),
    decreases list.len(),
{
    reveal(Seq::filter);
    if list.len() > 0 {
        search_is_bounded(list.drop_last(), query, max);
        let before = found(list.drop_last(), query, max);
        assert forall|i: int| 0 <= i < found(list, query, max).len() implies list.contains(
            #[trigger] found(list, query, max)[i],
        ) by {
            if i < before.len() {
                let k = choose|k: int|
                    0 <= k < list.drop_last().len() && list.drop_last()[k] == before[i];
                assert(list[k] == before[i]);
            } else {
                assert(list[list.len() - 1] == list.last());
            }
        }
    }
}

/// What is paid in two runs is paid together, and one payment counts with all
/// of its amount.
pub proof fn payments_add_up(
    a: Seq<InternalTransfer>,
    b: Seq<InternalTransfer>,
    payment: InternalTransfer,
)
    ensures
        payments_total(a + b) == payments_total(a) + payments_total(b),
        payments_total(seq![payment]) == payment.amt,
    decreases b.len(),
{
    reveal_with_fuel(payments_total, 2);
    if b.len() == 0 {
        assert(a + b =~= a);
    } else {
        payments_add_up(a, b.drop_last(), payment);
        assert((a + b).drop_last() =~= a + b.drop_last());
    }
}

/// A fundraiser has earned nothing before it is paid, and each payment adds its
/// amount, whatever the goal is and whoever pays.
pub proof fn earnings_are_all_payments(
    before: Fundraiser,
    after: Fundraiser,
    payment: InternalTransfer,
)
    ensures
        before.payments@.len() == 0 ==> before.earned() == 0,
        after.payments@ == before.payments@.push(payment) ==> after.earned() == before.earned()
            + payment.amt,
{
    if after.payments@ == before.payments@.push(payment) {
        assert(after.payments@.drop_last() =~= before.payments@);
    }
}

/// A fundraiser is found where the query occurs in the name that it is stored
/// under, or in the lower-case form of its purpose or of its owner; its goal,
/// its number, its payments and its own name do not matter.
pub proof fn queries_look_at_three_texts(stored: StoredFundraiser, query: Seq<char>)
    ensures
        outside::unicode::occurs_in(query, stored.key@) ==> matches_query(stored, query),
        outside::unicode::occurs_in(
            query,
            outside::unicode::lowercase(stored.fundraiser.purpose@),
        ) ==> matches_query(stored, query),
        outside::unicode::occurs_in(query, outside::unicode::lowercase(stored.fundraiser.owner@))
            ==> matches_query(stored, query),
        matches_query(stored, query) ==> {
            ||| outside::unicode::occurs_in(query, stored.key@)
            ||| outside::unicode::occurs_in(
                query,
                outside::unicode::lowercase(stored.fundraiser.purpose@),
            )
            ||| outside::unicode::occurs_in(
                query,
                outside::unicode::lowercase(stored.fundraiser.owner@),
            )
        },
{
}

/// The first of all fundraisers in one of whose texts the query occurs are
/// given, as many as were asked for where there are so many, in their order.
pub proof fn search_gives_the_first(list: Seq<StoredFundraiser>, query: Seq<char>, max: int)
    requires
        max >= 0,
    ensures
        ({
            let all = list.filter(
                |stored: StoredFundraiser|
                    outside::unicode::occurs_in(query, stored.key@) || outside::unicode::occurs_in(
                        query,
                        outside::unicode::lowercase(stored.fundraiser.purpose@),
                    ) || outside::unicode::occurs_in(
                        query,
                        outside::unicode::lowercase(stored.fundraiser.owner@),
                    ),
            );
            found(list, query, max) == if all.len() <= max {
                all
            } else {
                all.take(max)
            }
        }),
    decreases list.len(),
{
    let hit = |stored: StoredFundraiser|
        outside::unicode::occurs_in(query, stored.key@) || outside::unicode::occurs_in(
            query,
            outside::unicode::lowercase(stored.fundraiser.purpose@),
        ) || outside::unicode::occurs_in(
            query,
            outside::unicode::lowercase(stored.fundraiser.owner@),
        );
    reveal(Seq::filter);
    if list.len() > 0 {
        let shorter = list.drop_last();
        search_gives_the_first(shorter, query, max);
        let before = shorter.filter(hit);
        let all = list.filter(hit);
        assert(hit(list.last()) == matches_query(list.last(), query));
        if all.len() > max {
            assert(all.take(max) =~= if before.len() <= max {
                before
            } else {
                before.take(max)
            });
        } else if hit(list.last()) {
            assert(all =~= before.push(list.last()));
        }
    } else {
        assert(list.filter(hit) =~= seq![]);
    }
}

/// A result tells the name, the purpose, the owner and the goal of its
/// fundraiser, and what it has been paid in all.
pub proof fn results_tell_the_truth(result: SearchFundraiserRes, stored: StoredFundraiser)
    ensures
        tells_of(result, stored) <==> {
            &&& result.name == stored.fundraiser.name
            &&& result.purpose == stored.fundraiser.purpose
            &&& result.owner == stored.fundraiser.owner
            &&& result.goal == stored.fundraiser.goal
            &&& result.amt_earned == payments_total(stored.fundraiser.payments@)
        },
{
}

/// Whether no result stands behind one that it must come before.
pub open spec fn in_order(
    results: Seq<SearchFundraiserRes>,
    order: SearchFundraiserOrder,
) -> bool {
    forall|i: int, j: int|
        0 <= i < j < results.len() ==> !result_before(
            #[trigger] results[j],
            #[trigger] results[i],
            order,
        )
}

/// Results that are in order are so by names from the first to the last, by
/// earnings from the most or from the least, or by goals from the lowest or
/// from the highest, as the order says.
pub proof fn orders_mean_what_they_say(
    results: Seq<SearchFundraiserRes>,
    order: SearchFundraiserOrder,
)
    ensures
        in_order(results, order) <==> forall|i: int, j: int|
            0 <= i < j < results.len() ==> match order {
                SearchFundraiserOrder::Alphabetical => !outside::unicode::text_before(
                    (#[trigger] results[j]).name@,
                    (#[trigger] results[i]).name@,
                ),
                SearchFundraiserOrder::MostFunded => results[i].amt_earned >= results[j].amt_earned,
                SearchFundraiserOrder::LeastFunded => results[i].amt_earned
                    <= results[j].amt_earned,
                SearchFundraiserOrder::LowestGoal => results[i].goal <= results[j].goal,
                SearchFundraiserOrder::HighestGoal => results[i].goal >= results[j].goal,
            },
{
    if in_order(results, order) {
        assert forall|i: int, j: int| 0 <= i < j < results.len() implies match order {
            SearchFundraiserOrder::Alphabetical => !outside::unicode::text_before(
                (#[trigger] results[j]).name@,
                (#[trigger] results[i]).name@,
            ),
            SearchFundraiserOrder::MostFunded => results[i].amt_earned >= results[j].amt_earned,
            SearchFundraiserOrder::LeastFunded => results[i].amt_earned <= results[j].amt_earned,
            SearchFundraiserOrder::LowestGoal => results[i].goal <= results[j].goal,
            SearchFundraiserOrder::HighestGoal => results[i].goal >= results[j].goal,
        } by {
            assert(!result_before(results[j], results[i], order));
        }
    }
}

/// Fundraisers are the same where all that a user can see of them is.
pub proof fn same_fundraisers_agree(a: Fundraiser, b: Fundraiser)
    requires
        same_fundraiser(a, b),
    ensures
        a.name@ == b.name@ && a.owner@ == b.owner@ && a.purpose@ == b.purpose@,
        a.goal == b.goal && a.fundraiser_id == b.fundraiser_id,
        a.payments@ == b.payments@ && a.earned() == b.earned(),
{
}

/// A user may have five fundraisers open at once.
pub proof fn five_fundraisers_at_most()
    ensures
        MAX_FUNDRAISERS == 5,
{
}

/// Results tell of as many fundraisers as there are, each of its own.
pub proof fn each_result_tells_of_its_own(
    results: Seq<SearchFundraiserRes>,
    list: Seq<StoredFundraiser>,
    i: int,
)
    requires
        tell_of_all(results, list),
    ensures
        results.len() == list.len(),
        0 <= i < list.len() ==> {
            &&& results[i].name == list[i].fundraiser.name
            &&& results[i].purpose == list[i].fundraiser.purpose
            &&& results[i].owner == list[i].fundraiser.owner
            &&& results[i].goal == list[i].fundraiser.goal
            &&& results[i].amt_earned == payments_total(list[i].fundraiser.payments@)
        },
{
    if 0 <= i < list.len() {
        assert(tells_of(results[i], list[i]));
    }
}

/// Whether a fundraiser may be opened by someone who has so many open.
pub open spec fn may_open(authorized: bool, name_taken: bool, open: int) -> bool {
    authorized && !name_taken && open < MAX_FUNDRAISERS
}

/// Whether a fundraiser is new and as it was asked for.
pub open spec fn is_as_asked_for(
    fundraiser: Fundraiser,
    req: CreateFundraiserReq,
    id: u64,
) -> bool {
    &&& fundraiser.name@ == req.fundraiser_name@
    &&& fundraiser.owner@ == req.username@
    &&& fundraiser.goal == req.goal
    &&& fundraiser.purpose@ == req.purpose@
    &&& fundraiser.fundraiser_id == id
    &&& fundraiser.payments@.len() == 0
}

/// The number that follows; the first one follows the greatest.
pub open spec fn number_after(id: u64) -> int {
    if id == u64::MAX {
        0
    } else {
        id + 1
    }
}

/// A user with a session may open a fundraiser under a name that is free, up to
/// the fifth that they have open, whatever its goal and its purpose are.
pub proof fn fundraisers_that_may_be_opened(open: int)
    ensures
        may_open(true, false, open) <==> open < 5,
        !may_open(false, false, open),
        !may_open(true, true, open),
        !may_open(false, true, open),
{
}

/// A new fundraiser has its name, owner, goal and purpose from the request and
/// its own number, and has earned nothing yet.
pub proof fn new_fundraisers_are_unpaid(
    fundraiser: Fundraiser,
    req: CreateFundraiserReq,
    id: u64,
)
    requires
        is_as_asked_for(fundraiser, req, id),
    ensures
        fundraiser.earned() == 0,
        fundraiser.name@ == req.fundraiser_name@ && fundraiser.purpose@ == req.purpose@,
        fundraiser.owner@ == req.username@,
        fundraiser.goal == req.goal && fundraiser.fundraiser_id == id,
{
}

/// Numbers are used one after the other, and two in a row are never the same.
pub proof fn numbers_follow_each_other(id: u64)
    ensures
        number_after(id) != id,
        id < u64::MAX ==> number_after(id) == id + 1,
        number_after(u64::MAX) == 0,
{
}

} // verus!
