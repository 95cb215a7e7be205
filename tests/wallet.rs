use wallet_ledger::wallet::{Direction, Wallet};

fn record(name: &str, address: &str, balance: i64) -> Wallet {
    Wallet { name: String::from(name), address: String::from(address), balance }
}

#[test]
fn test_name_exists() {
    let wallet = Wallet {
        name: String::from("Bingo"),
        address: String::from("0".repeat(130)),
        balance: 100,
    };
    let wallets = vec![record("Alice", "a1", 5), wallet];

    assert!(Wallet::name_exists(&wallets, &wallets[1].name));
    assert!(!Wallet::name_exists(&wallets, &String::from("TEST ACCOUNT")));
}

#[test]
fn test_get_wallet_address() {
    let wallet = Wallet {
        name: String::from("Bingo2"),
        address: String::from("0".repeat(130)),
        balance: 100,
    };
    let wallets = vec![wallet];

    let address = match Wallet::get_wallet_address(&wallets, String::from("Bingo2")) {
        Some(addr) => addr,
        None => String::from("Address not found"),
    };

    assert_eq!(130, address.len());
    assert_eq!("0".repeat(130), address);
}

#[test]
fn test_increment_balance() {
    let mut wallets = vec![record("Alice", "a1", 100), record("Bob", "b1", 7)];
    let found = Wallet::update_balance(&mut wallets, String::from("Alice"), 25, Direction::Credit);
    assert!(found);
    assert_eq!(Wallet::get_balance(&wallets, String::from("Alice")), Some(125));
    assert_eq!(Wallet::get_balance(&wallets, String::from("Bob")), Some(7));
}

#[test]
fn test_decrement_balance() {
    let mut wallets = vec![record("Alice", "a1", 100), record("Bob", "b1", 7)];
    let found = Wallet::update_balance(&mut wallets, String::from("Bob"), 5, Direction::Debit);
    assert!(found);
    assert_eq!(Wallet::get_balance(&wallets, String::from("Bob")), Some(2));
    assert_eq!(Wallet::get_balance(&wallets, String::from("Alice")), Some(100));
}

#[test]
fn test_get_balance() {
    let wallets = vec![record("Alice", "a1", 100), record("Bob", "b1", -3)];
    assert_eq!(Wallet::get_balance(&wallets, String::from("Alice")), Some(100));
    assert_eq!(Wallet::get_balance(&wallets, String::from("Bob")), Some(-3));
    assert_eq!(Wallet::get_balance(&wallets, String::from("Carol")), None);
}

#[test]
fn empty_collection_has_nothing() {
    let wallets: Vec<Wallet> = Vec::new();
    assert!(!Wallet::name_exists(&wallets, &String::from("Alice")));
    assert_eq!(Wallet::get_wallet_address(&wallets, String::from("Alice")), None);
    assert_eq!(Wallet::get_balance(&wallets, String::from("Alice")), None);
}

#[test]
fn existence_after_append() {
    let mut wallets = vec![record("Alice", "a1", 1)];
    assert!(!Wallet::name_exists(&wallets, &String::from("Bob")));
    wallets.push(record("Bob", "b1", 2));
    assert!(Wallet::name_exists(&wallets, &String::from("Bob")));
    assert!(Wallet::name_exists(&wallets, &String::from("Alice")));
    assert!(!Wallet::name_exists(&wallets, &String::from("bob")));
}

#[test]
fn address_round_trip_after_append() {
    let mut wallets = vec![record("Bingo", "old", 1)];
    wallets.push(record("Bingo", "new-address", 2));
    assert_eq!(
        Wallet::get_wallet_address(&wallets, String::from("Bingo")),
        Some(String::from("new-address"))
    );
}

#[test]
fn balance_round_trip_after_append() {
    let mut wallets = vec![record("Alice", "a1", 1)];
    wallets.push(record("Bingo", "x", 100));
    assert_eq!(Wallet::get_balance(&wallets, String::from("Bingo")), Some(100));
}

#[test]
fn credit_then_debit_restores_balance() {
    let mut wallets = vec![record("Alice", "a1", 40)];
    assert!(Wallet::update_balance(&mut wallets, String::from("Alice"), 15, Direction::Credit));
    assert_eq!(Wallet::get_balance(&wallets, String::from("Alice")), Some(55));
    assert!(Wallet::update_balance(&mut wallets, String::from("Alice"), 15, Direction::Debit));
    assert_eq!(Wallet::get_balance(&wallets, String::from("Alice")), Some(40));
    assert_eq!(wallets[0].name, "Alice");
    assert_eq!(wallets[0].address, "a1");
}

#[test]
fn update_of_missing_account_changes_nothing() {
    let mut wallets = vec![record("Alice", "a1", 40), record("Bob", "b1", 9)];
    let found = Wallet::update_balance(&mut wallets, String::from("Carol"), 15, Direction::Credit);
    assert!(!found);
    assert_eq!(wallets.len(), 2);
    assert_eq!(wallets[0].balance, 40);
    assert_eq!(wallets[1].balance, 9);
}

#[test]
fn duplicate_names_first_balance_last_address() {
    let wallets = vec![
        record("Dup", "first-address", 10),
        record("Other", "o", 0),
        record("Dup", "second-address", 20),
    ];
    assert_eq!(Wallet::get_balance(&wallets, String::from("Dup")), Some(10));
    assert_eq!(
        Wallet::get_wallet_address(&wallets, String::from("Dup")),
        Some(String::from("second-address"))
    );
}

#[test]
fn update_touches_only_first_duplicate() {
    let mut wallets = vec![record("Dup", "a", 10), record("Dup", "b", 20)];
    assert!(Wallet::update_balance(&mut wallets, String::from("Dup"), 5, Direction::Credit));
    assert_eq!(wallets[0].balance, 15);
    assert_eq!(wallets[1].balance, 20);
}

#[test]
fn debit_beyond_balance_goes_negative() {
    let mut wallets = vec![record("Alice", "a1", 10)];
    assert!(Wallet::update_balance(&mut wallets, String::from("Alice"), 25, Direction::Debit));
    assert_eq!(Wallet::get_balance(&wallets, String::from("Alice")), Some(-15));
}

#[test]
fn balance_beyond_i32_range() {
    let mut wallets = vec![record("Big", "x", i32::MAX as i64)];
    assert!(Wallet::update_balance(&mut wallets, String::from("Big"), 1, Direction::Credit));
    assert_eq!(Wallet::get_balance(&wallets, String::from("Big")), Some(i32::MAX as i64 + 1));
}
