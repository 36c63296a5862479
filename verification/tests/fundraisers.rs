use coinstribute::auth::{auth_cookie_from, AuthCookie};
use coinstribute::fundraiser::{
    compare_results, create_fundraiser, search_fundraisers, CreateFundraiserReq, Fundraiser,
    InternalTransfer, SearchFundraiserOrder, SearchFundraiserRes, SearchFundraisersReq,
    StoredFundraiser,
};
use coinstribute::money::FinancialInfo;
use coinstribute::wallet::address::{Address, AddressReading};
use std::cmp::Ordering;

const SUB: &str = "8AW7SotwFrqfAKnibspuuhfowW4g3asvpQvdrTmPcpNr2GmXPtBBSxUPZQATAt8Vw2hiX9GDyxB4tMNgHjwt8qYsCeFDVvn";

fn s(text: &str) -> String {
    text.to_string()
}

fn info(open: usize) -> Option<FinancialInfo> {
    let address = match Address::read(SUB) {
        AddressReading::Found(address) => address,
        _ => panic!("no address"),
    };
    let mut info = FinancialInfo::new(1, address);
    for _ in 0..open {
        info.add_fundraiser(fundraiser("old", "alice", "p", 1, &[]));
    }
    Some(info)
}

fn session() -> Option<AuthCookie> {
    Some(auth_cookie_from(&s("alice"), s("abc"), 0))
}

fn fundraiser(name: &str, owner: &str, purpose: &str, goal: u64, paid: &[u64]) -> Fundraiser {
    Fundraiser {
        name: s(name),
        owner: s(owner),
        goal,
        fundraiser_id: 0,
        purpose: s(purpose),
        payments: paid
            .iter()
            .map(|amt| InternalTransfer {
                origin: s("bob"),
                receiver_fundraiser: 0,
                transfer_time: 1,
                amt: *amt,
            })
            .collect(),
    }
}

fn request() -> CreateFundraiserReq {
    CreateFundraiserReq {
        username: s("alice"),
        auth_cookie: s("abc"),
        fundraiser_name: s("Boat"),
        purpose: s("sail"),
        goal: 900,
    }
}

#[test]
fn fundraisers_earn_their_payments() {
    assert_eq!(fundraiser("f", "o", "p", 1, &[]).amt_earned(), 0);
    assert_eq!(fundraiser("f", "o", "p", 1, &[3, 4, 5]).amt_earned(), 12);
    assert_eq!(fundraiser("f", "o", "p", 1, &[u64::MAX]).checked_amt_earned(), Some(u64::MAX));
    assert_eq!(fundraiser("f", "o", "p", 1, &[u64::MAX, 1]).checked_amt_earned(), None);
}

#[test]
fn a_fundraiser_is_opened() {
    let mut id = 41;
    let opened =
        create_fundraiser(&request(), true, &session(), false, info(4), &mut id).ok().unwrap();
    assert_eq!(id, 42);
    assert_eq!(opened.next_id, 42);
    let f = &opened.fundraiser;
    assert_eq!((f.name.as_str(), f.owner.as_str(), f.purpose.as_str()), ("Boat", "alice", "sail"));
    assert_eq!((f.goal, f.fundraiser_id, f.payments.len()), (900, 41, 0));
    assert_eq!(opened.financial_info.active_fundraisers().len(), 5);
    assert_eq!(opened.financial_info.active_fundraisers()[4].name, "Boat");
}

#[test]
fn fundraisers_are_refused() {
    let mut id = 7;
    let denial =
        create_fundraiser(&request(), true, &None, false, info(0), &mut id).err().unwrap();
    assert_eq!((denial.status, id), (401, 7));
    assert_eq!(denial.denial.reason, "Invalid username or cookie");
    let denial =
        create_fundraiser(&request(), true, &session(), true, info(0), &mut id).err().unwrap();
    assert_eq!((denial.status, id), (400, 8));
    assert_eq!(denial.denial.reason, "The given fundraiser name already exists");
    assert_eq!(denial.denial.additional_info, "Please pick a different name for your fundraiser");
    let denial =
        create_fundraiser(&request(), true, &session(), false, info(5), &mut id).err().unwrap();
    assert_eq!((denial.status, id), (400, 9));
    assert_eq!(denial.denial.reason, "You can only have a maximum of 5 fundraisers");
    assert_eq!(
        denial.denial.additional_info,
        "Please delete or archive an existing fundraiser or wait for it to reach its goal"
    );
}

#[test]
fn numbers_of_fundraisers_begin_again() {
    let mut id = u64::MAX;
    let f = Fundraiser::from_req(&request(), &mut id);
    assert_eq!((f.fundraiser_id, id), (u64::MAX, 0));
}

fn stored() -> Vec<StoredFundraiser> {
    let entry = |f: Fundraiser| StoredFundraiser { key: f.name.clone(), fundraiser: f };
    vec![
        entry(fundraiser("boat", "Alice", "Sail the SEA", 50, &[5, 5])),
        entry(fundraiser("Car", "Bob", "drive", 10, &[30])),
        entry(fundraiser("ant", "Carol", "seafood", 70, &[])),
        entry(fundraiser("zoo", "Seamus", "animals", 20, &[1])),
    ]
}

fn search(query: &str, max: u64, order: SearchFundraiserOrder) -> Vec<String> {
    let req = SearchFundraisersReq { query: s(query), max_num_results: max, order };
    let results = search_fundraisers(&req, &stored()).unwrap().ok().unwrap();
    results.into_iter().map(|r| r.name).collect()
}

#[test]
fn fundraisers_are_found_by_name_purpose_and_owner() {
    let order = SearchFundraiserOrder::Alphabetical;
    assert_eq!(search("SEA", 100, order), vec!["ant", "boat", "zoo"]);
    assert_eq!(search("boat", 100, order), vec!["boat"]);
    // The stored name is compared as it is, so this one is found by no query
    // that its first letter is in.
    assert_eq!(search("car", 100, order), vec!["ant"]);
    assert_eq!(search("ar", 100, order), vec!["Car", "ant"]);
    assert_eq!(search("nothing", 100, order), Vec::<String>::new());
    assert_eq!(search("", 100, order), vec!["Car", "ant", "boat", "zoo"]);
}

#[test]
fn found_fundraisers_are_ordered() {
    assert_eq!(
        search("", 100, SearchFundraiserOrder::MostFunded),
        vec!["Car", "boat", "zoo", "ant"]
    );
    assert_eq!(
        search("", 100, SearchFundraiserOrder::LeastFunded),
        vec!["ant", "zoo", "boat", "Car"]
    );
    assert_eq!(
        search("", 100, SearchFundraiserOrder::LowestGoal),
        vec!["Car", "zoo", "boat", "ant"]
    );
    assert_eq!(
        search("", 100, SearchFundraiserOrder::HighestGoal),
        vec!["ant", "boat", "zoo", "Car"]
    );
}

#[test]
fn no_more_fundraisers_than_were_asked_for() {
    // The first two that are found, and only then the order.
    assert_eq!(search("", 2, SearchFundraiserOrder::LowestGoal), vec!["Car", "boat"]);
    assert_eq!(search("", 0, SearchFundraiserOrder::LowestGoal), Vec::<String>::new());
    let req = SearchFundraisersReq {
        query: s(""),
        max_num_results: 101,
        order: SearchFundraiserOrder::Alphabetical,
    };
    let denial = search_fundraisers(&req, &stored()).unwrap().err().unwrap();
    assert_eq!(denial.status, 400);
    assert_eq!(denial.denial.reason, "We can only return a maximum of 100 results at a time");
    assert_eq!(denial.denial.additional_info, "Please request a lower number");
}

#[test]
fn results_tell_of_their_fundraiser() {
    let req = SearchFundraisersReq {
        query: s("drive"),
        max_num_results: 1,
        order: SearchFundraiserOrder::Alphabetical,
    };
    let results = search_fundraisers(&req, &stored()).unwrap().ok().unwrap();
    let r = &results[0];
    assert_eq!((r.name.as_str(), r.owner.as_str(), r.purpose.as_str()), ("Car", "Bob", "drive"));
    assert_eq!((r.goal, r.amt_earned), (10, 30));
    let too_much = vec![StoredFundraiser {
        key: s("x"),
        fundraiser: fundraiser("x", "o", "p", 1, &[u64::MAX, 1]),
    }];
    let all = SearchFundraisersReq {
        query: s(""),
        max_num_results: 1,
        order: SearchFundraiserOrder::Alphabetical,
    };
    assert!(search_fundraisers(&all, &too_much).is_none());
    assert!(search_fundraisers(&req, &too_much).unwrap().ok().unwrap().is_empty());
}

#[test]
fn results_are_compared() {
    let result = |name: &str, goal, amt_earned| SearchFundraiserRes {
        name: s(name),
        purpose: s(""),
        owner: s(""),
        goal,
        amt_earned,
    };
    let (a, b) = (result("a", 1, 9), result("b", 2, 9));
    let order = SearchFundraiserOrder::Alphabetical;
    assert_eq!(compare_results(&a, &b, order), Ordering::Less);
    assert_eq!(compare_results(&b, &a, order), Ordering::Greater);
    assert_eq!(compare_results(&a, &a, order), Ordering::Equal);
    assert_eq!(compare_results(&a, &b, SearchFundraiserOrder::MostFunded), Ordering::Equal);
    assert_eq!(compare_results(&a, &b, SearchFundraiserOrder::HighestGoal), Ordering::Greater);
    assert_eq!(compare_results(&a, &b, SearchFundraiserOrder::LowestGoal), Ordering::Less);
}
