use substrate_lessons::dispatch::Origin;
use substrate_lessons::erc20::{Error, Event, Module};

fn issued(supply: u64) -> Module {
    let mut m = Module::new();
    assert_eq!(m.init(Origin::Signed(1), b"Token".to_vec(), b"TKN".to_vec(), supply), Ok(()));
    m
}

#[test]
fn init_gives_supply_to_sender() {
    let m = issued(1000);
    assert_eq!(m.token_id(), 1);
    assert_eq!(m.balance_of((0, 1)), 1000);
    assert_eq!(m.balance_of((0, 2)), 0);
    assert!(m.has_balance((0, 1)));
    assert!(!m.has_balance((0, 2)));
    let t = m.token_details(0);
    assert_eq!(t.name, b"Token".to_vec());
    assert_eq!(t.ticker, b"TKN".to_vec());
    assert_eq!(t.total_supply, 1000);
    assert_eq!(m.token_details(1).total_supply, 0);
    assert!(m.events().is_empty());
}

#[test]
fn init_refusals() {
    let mut m = Module::new();
    assert_eq!(m.init(Origin::Root, vec![], vec![], 1), Err(Error::BadOrigin));
    assert_eq!(m.init(Origin::Signed(1), vec![0; 65], vec![], 1), Err(Error::NameTooLong));
    assert_eq!(m.init(Origin::Signed(1), vec![0; 64], vec![0; 33], 1), Err(Error::TickerTooLong));
    assert_eq!(m.token_id(), 0);
    assert_eq!(m.init(Origin::Signed(1), vec![0; 64], vec![0; 32], 1), Ok(()));
    assert_eq!(m.token_id(), 1);
}

#[test]
fn transfer_moves_balance() {
    let mut m = issued(100);
    assert_eq!(m.transfer(Origin::Signed(1), 0, 2, 30), Ok(()));
    assert_eq!(m.balance_of((0, 1)), 70);
    assert_eq!(m.balance_of((0, 2)), 30);
    assert_eq!(m.events().clone(), vec![Event::Transfer(0, 1, 2, 30)]);
    // The whole balance can go; the sender keeps a stored zero.
    assert_eq!(m.transfer(Origin::Signed(1), 0, 2, 70), Ok(()));
    assert_eq!(m.balance_of((0, 1)), 0);
    assert!(m.has_balance((0, 1)));
    assert_eq!(m.balance_of((0, 2)), 100);
}

#[test]
fn token_transfer_refusals() {
    let mut m = issued(100);
    assert_eq!(m.transfer(Origin::Unsigned, 0, 2, 1), Err(Error::BadOrigin));
    assert_eq!(m.transfer(Origin::Signed(2), 0, 1, 1), Err(Error::NotTokenOwner));
    assert_eq!(m.transfer(Origin::Signed(1), 1, 2, 1), Err(Error::NotTokenOwner));
    assert_eq!(m.transfer(Origin::Signed(1), 0, 2, 101), Err(Error::NotEnoughBalance));
    assert_eq!(m.balance_of((0, 1)), 100);
    assert!(m.events().is_empty());

    let mut big = Module::new();
    assert_eq!(big.init(Origin::Signed(1), vec![], vec![], u64::MAX), Ok(()));
    assert_eq!(big.init(Origin::Signed(2), vec![], vec![], 0), Ok(()));
    assert_eq!(big.transfer(Origin::Signed(1), 0, 2, 5), Ok(()));
    assert_eq!(big.transfer(Origin::Signed(1), 0, 2, u64::MAX - 5), Ok(()));
    assert_eq!(big.balance_of((0, 2)), u64::MAX);
    assert_eq!(big.init(Origin::Signed(3), vec![], vec![], 1), Ok(()));
    assert_eq!(big.transfer(Origin::Signed(3), 2, 4, 1), Ok(()));
    assert_eq!(big._transfer(0, 2, 2, 1), Err(Error::BalanceOverflow));
}

#[test]
fn transfer_to_self_adds_value() {
    let mut m = issued(100);
    assert_eq!(m._transfer(0, 1, 1, 10), Ok(()));
    assert_eq!(m.balance_of((0, 1)), 110);
}

#[test]
fn approve_then_transfer_from() {
    let mut m = issued(100);
    assert_eq!(m.approve(Origin::Signed(1), 0, 2, 40), Ok(()));
    assert_eq!(m.allowance((0, 1, 2)), 40);
    assert_eq!(m.approve(Origin::Signed(1), 0, 2, 5), Ok(()));
    assert_eq!(m.allowance((0, 1, 2)), 45);
    assert_eq!(m.transfer_from(Origin::Signed(9), 0, 1, 2, 30), Ok(()));
    assert_eq!(m.allowance((0, 1, 2)), 15);
    assert_eq!(m.balance_of((0, 1)), 70);
    assert_eq!(m.balance_of((0, 2)), 30);
    assert_eq!(
        m.events().clone(),
        vec![
            Event::Approval(0, 1, 2, 40),
            Event::Approval(0, 1, 2, 5),
            Event::Approval(0, 1, 2, 30),
            Event::Transfer(0, 1, 2, 30),
        ]
    );
}

#[test]
fn approve_and_transfer_from_refusals() {
    let mut m = issued(10);
    assert_eq!(m.approve(Origin::Root, 0, 2, 1), Err(Error::BadOrigin));
    assert_eq!(m.approve(Origin::Signed(2), 0, 3, 1), Err(Error::NotTokenOwner));
    assert_eq!(m.approve(Origin::Signed(1), 0, 2, u64::MAX), Ok(()));
    assert_eq!(m.approve(Origin::Signed(1), 0, 2, 1), Err(Error::AllowanceOverflow));
    assert_eq!(m.transfer_from(Origin::Signed(1), 0, 1, 3, 1), Err(Error::AllowanceNotExist));
    assert_eq!(m.approve(Origin::Signed(1), 0, 4, 5), Ok(()));
    assert_eq!(m.transfer_from(Origin::Signed(1), 0, 1, 4, 6), Err(Error::NotEnoughAllowance));
    assert_eq!(m.allowance((0, 1, 4)), 5);
}

#[test]
fn refused_transfer_from_keeps_lowered_allowance() {
    let mut m = issued(10);
    assert_eq!(m.approve(Origin::Signed(1), 0, 2, 50), Ok(()));
    assert_eq!(m.transfer_from(Origin::Signed(2), 0, 1, 2, 20), Err(Error::NotEnoughBalance));
    assert_eq!(m.allowance((0, 1, 2)), 30);
    assert_eq!(m.balance_of((0, 1)), 10);
    assert_eq!(m.events().last(), Some(&Event::Approval(0, 1, 2, 20)));
}

#[test]
fn transfers_keep_token_total() {
    let mut m = issued(1000);
    assert_eq!(m.transfer(Origin::Signed(1), 0, 2, 300), Ok(()));
    assert_eq!(m.transfer(Origin::Signed(2), 0, 3, 100), Ok(()));
    assert_eq!(m.approve(Origin::Signed(3), 0, 4, 50), Ok(()));
    assert_eq!(m.transfer_from(Origin::Signed(4), 0, 3, 4, 50), Ok(()));
    let total: u64 = [1u64, 2, 3, 4].iter().map(|a| m.balance_of((0, *a))).sum();
    assert_eq!(total, 1000);
    assert_eq!(m.balance_of((0, 1)), 700);
    assert_eq!(m.balance_of((0, 2)), 200);
    assert_eq!(m.balance_of((0, 3)), 50);
    assert_eq!(m.balance_of((0, 4)), 50);
}
