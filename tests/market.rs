use market_contract::{
    check_payout, internal_payout, parse_u128, Contract, ListingArgs, MarketError,
    NonFungibleTokenApprovalReceiver, Payout, STORAGE_PER_SALE,
};
use market_contract::sale::MarketContract;
use market_contract::uses::MarketContract as UseCallback;

fn s(x: &str) -> String {
    String::from(x)
}

fn market() -> Contract {
    Contract::new(s("market.owner"))
}

fn terms(sale: u128, use_price: u128) -> Option<ListingArgs> {
    Some(ListingArgs { sale_condition: sale, use_condition: use_price })
}

/// A market where alice prepaid one sale and listed "X#1" of "nft.x" at 500, 10 per use.
fn listed_market() -> Contract {
    let mut m = market();
    assert_eq!(m.storage_deposit(None, s("alice"), STORAGE_PER_SALE), Ok(()));
    let r = m.nft_on_approve(&s("nft.x"), &s("alice"), s("X#1"), s("alice"), 7, terms(500, 10));
    assert_eq!(r, Ok(()));
    m
}

fn sale_price(m: &Contract, contract: &str, token: &str) -> Option<u128> {
    m.sales
        .iter()
        .find(|x| x.nft_contract_id == contract && x.token_id == token)
        .map(|x| x.sale_conditions)
}

fn payout_of(entries: &[(&str, u128)]) -> Payout {
    Payout { payout: entries.iter().map(|(a, v)| (s(a), *v)).collect() }
}

#[test]
fn listing_created_from_approval() {
    let m = listed_market();
    assert_eq!(m.get_supply_sales(), 1);
    assert_eq!(m.get_supply_uses(), 1);
    assert_eq!(m.get_supply_by_owner_id(&s("alice")), 1);
    assert_eq!(m.get_supply_by_contract_id(&s("nft.x")), 1);
    assert_eq!(sale_price(&m, "nft.x", "X#1"), Some(500));
}

#[test]
fn purchase_paid_out() {
    let mut m = listed_market();
    let req = m.offer(&s("bob"), 500, &s("nft.x"), &s("X#1")).unwrap();
    assert_eq!(req.receiver_id, "bob");
    assert_eq!(req.token_id, "X#1");
    assert_eq!(req.nft_contract_id, "nft.x");
    assert_eq!(req.approval_id, 7);
    assert_eq!(req.balance, 500);
    assert_eq!(req.max_len_payout, 10);
    assert_eq!(m.get_supply_sales(), 0);
    assert_eq!(m.get_supply_uses(), 0);
    let t = m.resolve_purchase(&s("bob"), 500, Some(payout_of(&[("alice", 450), ("bob", 50)])));
    assert_eq!(t.len(), 2);
    assert_eq!(t[0].receiver_id, "alice");
    assert_eq!(t[0].amount, 450);
    assert_eq!(t[1].receiver_id, "bob");
    assert_eq!(t[1].amount, 50);
    assert_eq!(t.iter().map(|x| x.amount).sum::<u128>(), 500);
    assert_eq!(m.get_supply_sales(), 0);
}

#[test]
fn purchase_refunded_on_failure() {
    let mut m = listed_market();
    assert!(m.offer(&s("bob"), 500, &s("nft.x"), &s("X#1")).is_ok());
    let t = m.resolve_purchase(&s("bob"), 500, None);
    assert_eq!(t.len(), 1);
    assert_eq!(t[0].receiver_id, "bob");
    assert_eq!(t[0].amount, 500);
}

#[test]
fn withdraw_keeps_required() {
    let mut m = market();
    assert_eq!(m.storage_deposit(None, s("alice"), 2 * STORAGE_PER_SALE), Ok(()));
    assert_eq!(m.nft_on_approve(&s("nft.x"), &s("alice"), s("1"), s("alice"), 1, terms(5, 1)), Ok(()));
    assert_eq!(m.nft_on_approve(&s("nft.x"), &s("alice"), s("2"), s("alice"), 2, terms(5, 1)), Ok(()));
    assert_eq!(m.storage_withdraw(&s("alice"), 1), Ok(0));
    assert_eq!(m.storage_balance_of(&s("alice")), 2 * STORAGE_PER_SALE);
}

#[test]
fn update_price_by_stranger() {
    let mut m = listed_market();
    let r = m.update_price(&s("mallory"), 1, &s("nft.x"), &s("X#1"), 1);
    assert_eq!(r, Err(MarketError::Unauthorized));
    assert_eq!(sale_price(&m, "nft.x", "X#1"), Some(500));
}

#[test]
fn update_price_by_owner() {
    let mut m = listed_market();
    assert_eq!(m.update_price(&s("alice"), 1, &s("nft.x"), &s("X#1"), 900), Ok(()));
    assert_eq!(sale_price(&m, "nft.x", "X#1"), Some(900));
    assert_eq!(m.get_supply_by_owner_id(&s("alice")), 1);
}

#[test]
fn update_price_needs_one_unit() {
    let mut m = listed_market();
    assert_eq!(m.update_price(&s("alice"), 0, &s("nft.x"), &s("X#1"), 900), Err(MarketError::InsufficientDeposit));
    assert_eq!(m.update_price(&s("alice"), 2, &s("nft.x"), &s("X#1"), 900), Err(MarketError::InsufficientDeposit));
    assert_eq!(sale_price(&m, "nft.x", "X#1"), Some(500));
}

#[test]
fn index_follows_create_and_remove() {
    let mut m = market();
    assert_eq!(m.storage_deposit(None, s("alice"), 3 * STORAGE_PER_SALE), Ok(()));
    assert_eq!(m.storage_deposit(None, s("carol"), STORAGE_PER_SALE), Ok(()));
    assert_eq!(m.nft_on_approve(&s("nft.x"), &s("alice"), s("1"), s("alice"), 1, terms(5, 1)), Ok(()));
    assert_eq!(m.nft_on_approve(&s("nft.y"), &s("alice"), s("1"), s("alice"), 1, terms(5, 1)), Ok(()));
    assert_eq!(m.nft_on_approve(&s("nft.x"), &s("carol"), s("2"), s("carol"), 1, terms(5, 1)), Ok(()));
    assert_eq!(m.get_supply_by_owner_id(&s("alice")), 2);
    assert_eq!(m.get_supply_by_owner_id(&s("carol")), 1);
    assert_eq!(m.get_supply_by_contract_id(&s("nft.x")), 2);
    assert_eq!(m.get_supply_by_contract_id(&s("nft.y")), 1);
    assert_eq!(m.remove_sale(&s("alice"), 1, &s("nft.y"), &s("1")), Ok(()));
    assert_eq!(m.get_supply_by_owner_id(&s("alice")), 1);
    assert_eq!(m.get_supply_by_contract_id(&s("nft.y")), 0);
    assert_eq!(m.get_supply_by_contract_id(&s("nft.x")), 2);
    assert_eq!(m.by_contract_id.len(), 1);
    assert_eq!(m.get_supply_sales(), 2);
}

#[test]
fn emptied_owner_set_is_deleted_and_recreated() {
    let mut m = listed_market();
    assert_eq!(m.by_owner_id.len(), 1);
    assert_eq!(m.remove_sale(&s("alice"), 1, &s("nft.x"), &s("X#1")), Ok(()));
    assert_eq!(m.by_owner_id.len(), 0);
    assert_eq!(m.by_contract_id.len(), 0);
    assert_eq!(m.get_supply_by_owner_id(&s("alice")), 0);
    assert_eq!(m.nft_on_approve(&s("nft.x"), &s("alice"), s("X#2"), s("alice"), 3, terms(5, 1)), Ok(()));
    assert_eq!(m.by_owner_id.len(), 1);
    assert_eq!(m.by_owner_id[0].keys.len(), 1);
    assert_eq!(m.get_supply_by_owner_id(&s("alice")), 1);
}

#[test]
fn remove_sale_by_stranger_changes_nothing() {
    let mut m = listed_market();
    assert_eq!(m.remove_sale(&s("mallory"), 1, &s("nft.x"), &s("X#1")), Err(MarketError::Unauthorized));
    assert_eq!(m.get_supply_sales(), 1);
    assert_eq!(m.get_supply_by_owner_id(&s("alice")), 1);
}

#[test]
fn remove_missing_sale_is_not_found() {
    let mut m = listed_market();
    assert_eq!(m.remove_sale(&s("alice"), 1, &s("nft.x"), &s("X#9")), Err(MarketError::NotFound));
    assert_eq!(m.remove_uses(&s("alice"), 1, &s("nft.x"), &s("X#9")), Err(MarketError::NotFound));
}

#[test]
fn second_offer_fails_after_purchase() {
    let mut m = listed_market();
    assert!(m.offer(&s("bob"), 500, &s("nft.x"), &s("X#1")).is_ok());
    assert_eq!(m.offer(&s("carol"), 900, &s("nft.x"), &s("X#1")).err(), Some(MarketError::NotFound));
    assert_eq!(m.nft_on_approve(&s("nft.x"), &s("alice"), s("X#1"), s("alice"), 8, terms(600, 10)), Ok(()));
    let req = m.offer(&s("carol"), 600, &s("nft.x"), &s("X#1")).unwrap();
    assert_eq!(req.approval_id, 8);
}

#[test]
fn offer_checks_in_order() {
    let mut m = listed_market();
    assert_eq!(m.offer(&s("bob"), 0, &s("nft.x"), &s("X#1")).err(), Some(MarketError::InsufficientDeposit));
    assert_eq!(m.offer(&s("bob"), 500, &s("nft.x"), &s("nope")).err(), Some(MarketError::NotFound));
    assert_eq!(m.offer(&s("alice"), 500, &s("nft.x"), &s("X#1")).err(), Some(MarketError::Unauthorized));
    assert_eq!(m.offer(&s("bob"), 499, &s("nft.x"), &s("X#1")).err(), Some(MarketError::InsufficientDeposit));
    assert_eq!(m.get_supply_sales(), 1);
}

#[test]
fn offer_without_use_offer_buys_the_sale() {
    let mut m = listed_market();
    assert_eq!(m.remove_uses(&s("alice"), 1, &s("nft.x"), &s("X#1")), Ok(()));
    assert_eq!(m.get_supply_uses(), 0);
    let req = m.offer(&s("bob"), 500, &s("nft.x"), &s("X#1")).unwrap();
    assert_eq!(req.receiver_id, "bob");
    assert_eq!(req.balance, 500);
    assert_eq!(m.get_supply_sales(), 0);
    assert_eq!(m.get_supply_by_owner_id(&s("alice")), 0);
    assert_eq!(m.get_supply_uses(), 0);
}

#[test]
fn approval_with_unreadable_terms() {
    let mut m = market();
    assert_eq!(m.nft_on_approve(&s("nft.x"), &s("alice"), s("1"), s("alice"), 1, None), Err(MarketError::InvalidInput));
    assert_eq!(m.nft_on_approve(&s("nft.x"), &s("alice"), s("1"), s("bob"), 1, None), Err(MarketError::Unauthorized));
    assert_eq!(m.get_supply_sales(), 0);
}

#[test]
fn split_with_repeated_recipient_is_refunded() {
    assert!(!check_payout(&payout_of(&[("alice", 250), ("alice", 250)]), 500));
    let t = internal_payout(&s("bob"), 500, Some(payout_of(&[("alice", 250), ("alice", 250)])));
    assert_eq!(t.len(), 1);
    assert_eq!(t[0].receiver_id, "bob");
    assert_eq!(t[0].amount, 500);
}

#[test]
fn approval_checks() {
    let mut m = market();
    assert_eq!(m.storage_deposit(None, s("alice"), STORAGE_PER_SALE), Ok(()));
    assert_eq!(m.nft_on_approve(&s("alice"), &s("alice"), s("1"), s("alice"), 1, terms(5, 1)), Err(MarketError::Unauthorized));
    assert_eq!(m.nft_on_approve(&s("nft.x"), &s("alice"), s("1"), s("bob"), 1, terms(5, 1)), Err(MarketError::Unauthorized));
    assert_eq!(m.nft_on_approve(&s("nft.x"), &s("alice"), s("1"), s("alice"), 1, terms(5, 1)), Ok(()));
    assert_eq!(
        m.nft_on_approve(&s("nft.x"), &s("alice"), s("2"), s("alice"), 1, terms(5, 1)),
        Err(MarketError::InsufficientStorageQuota)
    );
    assert_eq!(m.get_supply_sales(), 1);
}

#[test]
fn reapproval_replaces_listing() {
    let mut m = listed_market();
    assert_eq!(m.nft_on_approve(&s("nft.x"), &s("alice"), s("X#1"), s("alice"), 9, terms(700, 20)), Err(MarketError::InsufficientStorageQuota));
    assert_eq!(m.storage_deposit(None, s("alice"), STORAGE_PER_SALE), Ok(()));
    assert_eq!(m.nft_on_approve(&s("nft.x"), &s("alice"), s("X#1"), s("alice"), 9, terms(700, 20)), Ok(()));
    assert_eq!(m.get_supply_sales(), 1);
    assert_eq!(m.get_supply_uses(), 1);
    assert_eq!(m.get_supply_by_owner_id(&s("alice")), 1);
    assert_eq!(sale_price(&m, "nft.x", "X#1"), Some(700));
}

#[test]
fn storage_deposit_minimum() {
    let mut m = market();
    assert_eq!(m.storage_deposit(None, s("alice"), STORAGE_PER_SALE - 1), Err(MarketError::InsufficientDeposit));
    assert_eq!(m.storage_balance_of(&s("alice")), 0);
    assert_eq!(m.storage_deposit(Some(s("dave")), s("alice"), STORAGE_PER_SALE), Ok(()));
    assert_eq!(m.storage_balance_of(&s("dave")), STORAGE_PER_SALE);
    assert_eq!(m.storage_balance_of(&s("alice")), 0);
    assert_eq!(m.storage_deposit(None, s("dave"), STORAGE_PER_SALE), Ok(()));
    assert_eq!(m.storage_balance_of(&s("dave")), 2 * STORAGE_PER_SALE);
    assert_eq!(m.storage_minimum_balance(), STORAGE_PER_SALE);
    assert_eq!(STORAGE_PER_SALE, 10_000_000_000_000_000_000_000);
}

#[test]
fn withdraw_returns_surplus() {
    let mut m = listed_market();
    assert_eq!(m.storage_deposit(None, s("alice"), 3 * STORAGE_PER_SALE), Ok(()));
    assert_eq!(m.storage_withdraw(&s("alice"), 0), Err(MarketError::InsufficientDeposit));
    assert_eq!(m.storage_withdraw(&s("alice"), 1), Ok(3 * STORAGE_PER_SALE));
    assert_eq!(m.storage_balance_of(&s("alice")), STORAGE_PER_SALE);
}

#[test]
fn withdraw_without_listings_clears_record() {
    let mut m = market();
    assert_eq!(m.storage_deposit(None, s("erin"), 5 * STORAGE_PER_SALE), Ok(()));
    assert_eq!(m.storage_withdraw(&s("erin"), 1), Ok(5 * STORAGE_PER_SALE));
    assert_eq!(m.storage_balance_of(&s("erin")), 0);
    assert_eq!(m.storage_deposit.len(), 0);
}

#[test]
fn withdraw_detects_inconsistent_ledger() {
    let mut m = listed_market();
    m.storage_deposit[0].balance = 1;
    assert_eq!(m.storage_withdraw(&s("alice"), 1), Err(MarketError::AccountingInconsistency));
    assert_eq!(m.storage_balance_of(&s("alice")), 1);
}

#[test]
fn payout_validation() {
    assert!(check_payout(&payout_of(&[("a", 450), ("b", 50)]), 500));
    assert!(check_payout(&payout_of(&[("a", 449), ("b", 50)]), 500));
    assert!(!check_payout(&payout_of(&[("a", 448), ("b", 50)]), 500));
    assert!(!check_payout(&payout_of(&[("a", 451), ("b", 50)]), 500));
    assert!(!check_payout(&payout_of(&[]), 500));
    let names = ["a", "b", "c", "d", "e", "f", "g", "h", "i", "j", "k"];
    let eleven: Vec<(&str, u128)> = names.iter().map(|n| (*n, 0)).collect();
    assert!(!check_payout(&payout_of(&eleven), 0));
    let ten: Vec<(&str, u128)> = names[..10].iter().map(|n| (*n, 1)).collect();
    assert!(check_payout(&payout_of(&ten), 10));
    assert!(!check_payout(&payout_of(&[("a", u128::MAX), ("b", 2)]), u128::MAX));
}

#[test]
fn invalid_split_is_refunded() {
    let t = internal_payout(&s("bob"), 500, Some(payout_of(&[("alice", 400), ("carol", 50)])));
    assert_eq!(t.len(), 1);
    assert_eq!(t[0].receiver_id, "bob");
    assert_eq!(t[0].amount, 500);
    let t = internal_payout(&s("bob"), 500, Some(payout_of(&[])));
    assert_eq!(t.len(), 1);
    assert_eq!(t[0].amount, 500);
    let t = internal_payout(&s("bob"), 500, Some(payout_of(&[("alice", 499)])));
    assert_eq!(t.len(), 1);
    assert_eq!(t[0].receiver_id, "alice");
    assert_eq!(t[0].amount, 499);
}

#[test]
fn use_offer_survives_uses() {
    let mut m = listed_market();
    let r = m.apply_use(&s("bob"), 10, &s("nft.x"), &s("X#1")).unwrap();
    assert_eq!(r.user_id, "bob");
    assert_eq!(r.balance, 10);
    assert_eq!(r.max_len_payout, 10);
    let r = m.apply_use(&s("carol"), 15, &s("nft.x"), &s("X#1")).unwrap();
    assert_eq!(r.balance, 15);
    assert_eq!(m.get_supply_uses(), 1);
    assert_eq!(m.apply_use(&s("alice"), 10, &s("nft.x"), &s("X#1")).err(), Some(MarketError::Unauthorized));
    assert_eq!(m.apply_use(&s("bob"), 9, &s("nft.x"), &s("X#1")).err(), Some(MarketError::InsufficientDeposit));
    assert_eq!(m.apply_use(&s("bob"), 0, &s("nft.x"), &s("X#1")).err(), Some(MarketError::InsufficientDeposit));
    assert_eq!(m.apply_use(&s("bob"), 10, &s("nft.x"), &s("X#2")).err(), Some(MarketError::NotFound));
    let t = UseCallback::resolve_use(&mut m, &s("bob"), 10, None);
    assert_eq!(t.len(), 1);
    assert_eq!(t[0].amount, 10);
}

#[test]
fn use_price_update_and_removal() {
    let mut m = listed_market();
    assert_eq!(m.update_use_price(&s("bob"), 1, &s("nft.x"), &s("X#1"), 3), Err(MarketError::Unauthorized));
    assert_eq!(m.update_use_price(&s("alice"), 1, &s("nft.x"), &s("X#1"), 3), Ok(()));
    assert_eq!(m.uses[0].use_conditions, 3);
    assert_eq!(m.remove_uses(&s("bob"), 1, &s("nft.x"), &s("X#1")), Err(MarketError::Unauthorized));
    assert_eq!(m.remove_uses(&s("alice"), 1, &s("nft.x"), &s("X#1")), Ok(()));
    assert_eq!(m.get_supply_uses(), 0);
    assert_eq!(m.get_supply_sales(), 1);
}

#[test]
fn amounts_parse() {
    assert_eq!(parse_u128("500"), Some(500));
    assert_eq!(parse_u128("0"), Some(0));
    assert_eq!(parse_u128("340282366920938463463374607431768211455"), Some(u128::MAX));
    assert_eq!(parse_u128("340282366920938463463374607431768211456"), None);
    assert_eq!(parse_u128(""), None);
    assert_eq!(parse_u128("12a"), None);
    assert_eq!(parse_u128("-1"), None);
    assert_eq!(parse_u128("+1"), None);
    assert_eq!(ListingArgs::from_terms("500", "10").map(|a| (a.sale_condition, a.use_condition)), Ok((500, 10)));
    assert_eq!(ListingArgs::from_terms("5x", "10").err(), Some(MarketError::InvalidInput));
    assert_eq!(ListingArgs::from_terms("5", "").err(), Some(MarketError::InvalidInput));
}

fn three_listings() -> Contract {
    let mut m = market();
    assert_eq!(m.storage_deposit(None, s("alice"), 3 * STORAGE_PER_SALE), Ok(()));
    for (c, t, p) in [("nft.x", "1", 10u128), ("nft.y", "2", 20), ("nft.x", "3", 30)] {
        assert_eq!(m.nft_on_approve(&s(c), &s("alice"), s(t), s("alice"), 1, terms(p, 1)), Ok(()));
    }
    m
}

#[test]
fn pages_of_sales() {
    let m = three_listings();
    let prices = |v: Vec<market_contract::Sale>| v.iter().map(|x| x.sale_conditions).collect::<Vec<u128>>();
    assert_eq!(prices(m.get_sales(None, Some(10))), vec![10, 20, 30]);
    assert_eq!(prices(m.get_sales(Some(1), Some(1))), vec![20]);
    assert_eq!(prices(m.get_sales(Some(1), None)), Vec::<u128>::new());
    assert_eq!(prices(m.get_sales(Some(0), Some(0))), Vec::<u128>::new());
    assert_eq!(prices(m.get_sales(Some(7), Some(3))), Vec::<u128>::new());
    assert_eq!(prices(m.get_sales(Some(u128::MAX), Some(u64::MAX))), Vec::<u128>::new());
    assert_eq!(prices(m.get_sale_by_owner_id(&s("alice"), Some(1), Some(5))), vec![20, 30]);
    assert_eq!(prices(m.get_sale_by_owner_id(&s("bob"), None, Some(5))), Vec::<u128>::new());
    assert_eq!(prices(m.get_sales_by_cotnract_id(&s("nft.x"), None, Some(5))), vec![10, 30]);
    assert_eq!(prices(m.get_sales_by_cotnract_id(&s("nft.z"), None, Some(5))), Vec::<u128>::new());
    let uses: Vec<u128> = m.get_uses(Some(2), Some(9)).iter().map(|x| x.use_conditions).collect();
    assert_eq!(uses, vec![1]);
}

#[test]
fn deployments_recorded_once_per_creator() {
    let mut m = market();
    m.create_smart_contract(s("zoe"), s("a.market"), s("https://a"), s("A"));
    m.create_smart_contract(s("zoe"), s("b.market"), s("https://b"), s("B"));
    m.create_smart_contract(s("zoe"), s("a.market"), s("https://a"), s("A"));
    m.create_smart_contract(s("yan"), s("c.market"), s("https://c"), s("C"));
    let names = |v: Vec<market_contract::DeployedSmartContract>| v.into_iter().map(|d| d.contract_name).collect::<Vec<String>>();
    assert_eq!(names(m.get_created_contract_by_creator(&s("zoe"), None, Some(10))), vec![s("A"), s("B")]);
    assert_eq!(names(m.get_created_contract_by_creator(&s("zoe"), Some(1), Some(10))), vec![s("B")]);
    assert_eq!(names(m.get_created_contract_by_creator(&s("yan"), None, Some(10))), vec![s("C")]);
    assert_eq!(names(m.get_created_contract_by_creator(&s("xia"), None, Some(10))), Vec::<String>::new());
    assert_eq!(names(m.get_created_contract_by_creator(&s("zoe"), None, None)), Vec::<String>::new());
}
