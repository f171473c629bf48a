use incubator::vending_machine::{Coin, CoinCounts, Product, PurchaseStatus, VendingMachine};

fn counts(balance: &CoinCounts) -> Vec<Option<u64>> {
    Coin::big_to_small().iter().map(|coin| balance.get(coin)).collect()
}

fn stocked() -> VendingMachine<incubator::vending_machine::UserServiceState> {
    VendingMachine::builder()
        .add_products(vec![Product::Lolypop; 5])
        .add_products(vec![Product::Chips; 5])
        .add_products(vec![Product::Water; 5])
        .add_products(vec![Product::Water; 5])
        .add_coins(vec![Coin::N50; 5])
        .add_coins(vec![Coin::N20; 5])
        .add_coins(vec![Coin::N10; 5])
        .add_coins(vec![Coin::N5; 5])
        .add_coins(vec![Coin::N2; 5])
        .add_coins(vec![Coin::N1; 5])
        .build()
}

#[test]
fn prices_and_nominals() {
    assert_eq!(Product::Lolypop.price(), 12);
    assert_eq!(Product::Chips.price(), 45);
    assert_eq!(Product::Water.price(), 52);
    assert_eq!(Product::Soda.price(), 63);
    let nominals: Vec<u64> = Coin::big_to_small().iter().map(u64::from).collect();
    assert_eq!(nominals, vec![50, 20, 10, 5, 2, 1]);
    assert_eq!(
        Coin::big_to_small(),
        vec![Coin::N50, Coin::N20, Coin::N10, Coin::N5, Coin::N2, Coin::N1]
    );
}

#[test]
fn sale_gives_change_from_the_largest_coin_down() {
    let mut vm = stocked();
    vm.insert_coin(Coin::N50);
    vm.insert_coins(vec![Coin::N50; 1]);
    assert_eq!(counts(vm.get_balance()), vec![Some(2), None, None, None, None, None]);
    assert_eq!(vm.get_balance().total(), 100);
    match vm.purchase(Product::Water) {
        PurchaseStatus::Success { product, change } => {
            assert_eq!(product, Product::Water);
            // 48 = 20 + 20 + 5 + 2 + 1
            assert_eq!(
                counts(&change),
                vec![Some(0), Some(2), Some(0), Some(1), Some(1), Some(1)]
            );
            assert_eq!(change.total(), 48);
        }
        _ => panic!("the sale should succeed"),
    }
    assert_eq!(counts(vm.get_balance()), vec![None; 6]);
    assert_eq!(vm.get_balance().total(), 0);
}

#[test]
fn too_little_money_changes_nothing() {
    let mut vm = stocked();
    vm.insert_coins(vec![Coin::N20, Coin::N20, Coin::N10, Coin::N1]);
    assert!(matches!(vm.purchase(Product::Water), PurchaseStatus::NotEnoughtBalance));
    assert_eq!(counts(vm.get_balance()), vec![None, Some(2), Some(1), None, None, Some(1)]);
    vm.insert_coin(Coin::N1);
    match vm.purchase(Product::Water) {
        PurchaseStatus::Success { change, .. } => {
            assert_eq!(counts(&change), vec![Some(0); 6]);
        }
        _ => panic!("the sale should succeed"),
    }
}

#[test]
fn missing_product_is_told_before_anything_else() {
    let mut vm = stocked();
    assert!(matches!(vm.purchase(Product::Soda), PurchaseStatus::NotEnoughtProduct));
    vm.insert_coins(vec![Coin::N50, Coin::N50]);
    assert!(matches!(vm.purchase(Product::Soda), PurchaseStatus::NotEnoughtProduct));
    assert_eq!(vm.get_balance().count(&Coin::N50), 2);
    let mut empty = VendingMachine::builder().build();
    assert!(matches!(empty.purchase(Product::Lolypop), PurchaseStatus::NotEnoughtProduct));
}

#[test]
fn change_that_cannot_be_given_stops_the_sale() {
    let mut vm = VendingMachine::builder()
        .add_product(Product::Lolypop)
        .add_coin(Coin::N5)
        .add_coins(vec![Coin::N2; 3])
        .build();
    // 18 paid, 6 owed: the 5 goes first and the last 1 cannot be given,
    // though three coins of 2 would do.
    vm.insert_coins(vec![Coin::N10, Coin::N5, Coin::N2, Coin::N1]);
    assert_eq!(vm.get_balance().total(), 18);
    match vm.purchase(Product::Lolypop) {
        PurchaseStatus::Success { change, .. } => {
            // the inserted coins count as change: 5 and 1 are there
            assert_eq!(
                counts(&change),
                vec![Some(0), Some(0), Some(0), Some(1), Some(0), Some(1)]
            );
        }
        _ => panic!("the sale should succeed"),
    }

    let mut vm = VendingMachine::builder().add_product(Product::Chips).build();
    vm.insert_coin(Coin::N50);
    assert!(matches!(vm.purchase(Product::Chips), PurchaseStatus::CannotGiveChange));
    assert_eq!(counts(vm.get_balance()), vec![Some(1), None, None, None, None, None]);
    // the coins that were inserted count as change, but of 55 paid the
    // 10 owed cannot be given out of one 50 and one 5
    vm.insert_coin(Coin::N5);
    assert!(matches!(vm.purchase(Product::Chips), PurchaseStatus::CannotGiveChange));
    assert_eq!(counts(vm.get_balance()), vec![Some(1), None, None, Some(1), None, None]);

    let mut vm = VendingMachine::builder()
        .add_product(Product::Chips)
        .add_coin(Coin::N5)
        .build();
    vm.insert_coin(Coin::N50);
    match vm.purchase(Product::Chips) {
        PurchaseStatus::Success { change, .. } => {
            assert_eq!(change.total(), 5);
            assert_eq!(change.count(&Coin::N5), 1);
        }
        _ => panic!("the sale should succeed"),
    }
}

#[test]
fn stock_is_not_counted_down_by_a_sale() {
    let mut vm = VendingMachine::builder().add_product(Product::Lolypop).build();
    for _ in 0..3 {
        vm.insert_coins(vec![Coin::N10, Coin::N2]);
        assert!(matches!(vm.purchase(Product::Lolypop), PurchaseStatus::Success { .. }));
    }
}

#[test]
fn coin_counts_keep_absent_and_zero_apart() {
    let mut counts = CoinCounts::new();
    assert_eq!(counts.get(&Coin::N2), None);
    assert_eq!(counts.count(&Coin::N2), 0);
    counts.insert(Coin::N2, 0);
    assert_eq!(counts.get(&Coin::N2), Some(0));
    counts.insert(Coin::N2, 7);
    counts.insert(Coin::N50, 1);
    assert_eq!(counts.get(&Coin::N2), Some(7));
    assert_eq!(counts.total(), 64);
}
