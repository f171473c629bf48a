//! A vending machine that is stocked and loaded with change in one state and
//! serves customers in another.

use std::collections::HashMap;
use vstd::prelude::*;
use vstd::std_specs::convert::FromSpecImpl;
use vstd::std_specs::hash::*;

verus! {

broadcast use group_hash_axioms;

/// Represents product info.
#[derive(Debug, Clone, Copy, PartialEq, Eq, Hash, Structural)]
pub enum Product {
    Lolypop,
    Chips,
    Water,
    Soda,
}

impl Product {
    /// Price of product.
    pub open spec fn spec_price(&self) -> u64 {
        match self {
            Product::Lolypop => 12,
            Product::Chips => 45,
            Product::Water => 52,
            Product::Soda => 63,
        }
    }

    /// Price of product.
    #[verifier::when_used_as_spec(spec_price)]
    pub fn price(&self) -> (price: u64)
        ensures
            price == self.spec_price(),
    {
        match self {
            Product::Lolypop => 12,
            Product::Chips => 45,
            Product::Water => 52,
            Product::Soda => 63,
        }
    }

    /// The number under which the product is counted.
    pub open spec fn spec_code(&self) -> u64 {
        match self {
            Product::Lolypop => 0,
            Product::Chips => 1,
            Product::Water => 2,
            Product::Soda => 3,
        }
    }

    #[verifier::when_used_as_spec(spec_code)]
    fn code(&self) -> (code: u64)
        ensures
            code == self.spec_code(),
    {
        match self {
            Product::Lolypop => 0,
            Product::Chips => 1,
            Product::Water => 2,
            Product::Soda => 3,
        }
    }
}

/// Supported coins nominals.
#[derive(Debug, Clone, Copy, PartialEq, Eq, Hash, Structural)]
pub enum Coin {
    N1,
    N2,
    N5,
    N10,
    N20,
    N50,
}

impl Coin {
    /// What the coin is worth.
    pub open spec fn nominal(self) -> u64 {
        match self {
            Coin::N1 => 1,
            Coin::N2 => 2,
            Coin::N5 => 5,
            Coin::N10 => 10,
            Coin::N20 => 20,
            Coin::N50 => 50,
        }
    }

    /// The coins from the largest to the smallest.
    pub open spec fn descending() -> Seq<Coin> {
        seq![Coin::N50, Coin::N20, Coin::N10, Coin::N5, Coin::N2, Coin::N1]
    }

    /// Useful for calculate change.
    pub fn big_to_small() -> (coins: Vec<Coin>)
        ensures
            coins@ == Coin::descending(),
    {
        let coins = vec![Coin::N50, Coin::N20, Coin::N10, Coin::N5, Coin::N2, Coin::N1];
        assert(coins@ =~= Coin::descending());
        coins
    }
}

impl From<&Coin> for u64 {
    fn from(value: &Coin) -> (nominal: Self) {
        match value {
            Coin::N1 => 1,
            Coin::N2 => 2,
            Coin::N5 => 5,
            Coin::N10 => 10,
            Coin::N20 => 20,
            Coin::N50 => 50,
        }
    }
}

impl FromSpecImpl<&Coin> for u64 {
    open spec fn obeys_from_spec() -> bool {
        true
    }

    open spec fn from_spec(value: &Coin) -> u64 {
        value.nominal()
    }
}

/// How many there are of each product; a product may be absent.
pub struct ProductCounts {
    counts: HashMap<u64, u64>,
}

impl ProductCounts {
    /// The count of each product that is present.
    pub closed spec fn view(&self) -> Map<Product, u64> {
        Map::new(
            |product: Product| self.counts@.contains_key(product.spec_code()),
            |product: Product| self.counts@[product.spec_code()],
        )
    }

    /// No product is present.
    pub fn new() -> (counts: Self)
        ensures
            counts@ == Map::<Product, u64>::empty(),
    {
        let counts = ProductCounts { counts: HashMap::new() };
        assert(counts@ =~= Map::<Product, u64>::empty());
        counts
    }

    /// The count of `product`, if it is present.
    pub fn get(&self, product: &Product) -> (count: Option<u64>)
        ensures
            count == if self@.contains_key(*product) {
                Some(self@[*product])
            } else {
                None::<u64>
            },
    {
        match self.counts.get(&product.code()) {
            Some(count) => Some(*count),
            None => None,
        }
    }

    /// Sets the count of `product`.
    pub fn insert(&mut self, product: Product, count: u64)
        ensures
            final(self)@ == old(self)@.insert(product, count),
    {
        self.counts.insert(product.code(), count);
        assert(self@ =~= old(self)@.insert(product, count));
    }
}

/// How many there are of each coin; a coin may be absent.
pub struct CoinCounts {
    counts: HashMap<u64, u64>,
}

impl CoinCounts {
    /// The count of each coin that is present.
    pub closed spec fn view(&self) -> Map<Coin, u64> {
        Map::new(
            |coin: Coin| self.counts@.contains_key(coin.nominal()),
            |coin: Coin| self.counts@[coin.nominal()],
        )
    }

    /// No coin is present.
    pub fn new() -> (counts: Self)
        ensures
            counts@ == Map::<Coin, u64>::empty(),
    {
        let counts = CoinCounts { counts: HashMap::new() };
        assert(counts@ =~= Map::<Coin, u64>::empty());
        counts
    }

    /// The count of `coin`, if it is present.
    pub fn get(&self, coin: &Coin) -> (count: Option<u64>)
        ensures
            count == if self@.contains_key(*coin) {
                Some(self@[*coin])
            } else {
                None::<u64>
            },
    {
        match self.counts.get(&u64::from(coin)) {
            Some(count) => Some(*count),
            None => None,
        }
    }

    /// Sets the count of `coin`.
    pub fn insert(&mut self, coin: Coin, count: u64)
        ensures
            final(self)@ == old(self)@.insert(coin, count),
    {
        self.counts.insert(u64::from(&coin), count);
        assert(self@ =~= old(self)@.insert(coin, count));
    }
}

/// The count of `key` in `counts`, which is zero where the key is absent.
pub open spec fn count_of<K>(counts: Map<K, u64>, key: K) -> u64 {
    if counts.contains_key(key) {
        counts[key]
    } else {
        0
    }
}

/// What the coins are worth together.
pub open spec fn worth(coins: Map<Coin, u64>) -> nat {
    (50 * count_of(coins, Coin::N50) + 20 * count_of(coins, Coin::N20) + 10 * count_of(
        coins,
        Coin::N10,
    ) + 5 * count_of(coins, Coin::N5) + 2 * count_of(coins, Coin::N2) + count_of(
        coins,
        Coin::N1,
    )) as nat
}

/// The counts after one more of `key` has been counted.
pub open spec fn added<K>(counts: Map<K, u64>, key: K) -> Map<K, u64> {
    counts.insert(key, (count_of(counts, key) + 1) as u64)
}

/// The counts after each of `keys`, in order, has been counted.
pub open spec fn all_added<K>(counts: Map<K, u64>, keys: Seq<K>) -> Map<K, u64>
    decreases keys.len(),
{
    if keys.len() == 0 {
        counts
    } else {
        all_added(added(counts, keys.first()), keys.drop_first())
    }
}

/// Each of `keys` can be counted in order without a count leaving `u64`.
pub open spec fn room_for<K>(counts: Map<K, u64>, keys: Seq<K>) -> bool
    decreases keys.len(),
{
    keys.len() == 0 || (count_of(counts, keys.first()) < u64::MAX && room_for(
        added(counts, keys.first()),
        keys.drop_first(),
    ))
}

/// What a machine holds.
pub ghost struct Holdings {
    /// Products count.
    pub products: Map<Product, u64>,
    /// Availables machine change balance.
    pub change_balance: Map<Coin, u64>,
    /// Available user balance.
    pub user_balance: Map<Coin, u64>,
}

/// The state in which the machine is stocked and loaded with change.
pub struct MaintenanceState;

/// The state in which the machine takes coins and sells.
pub struct UserServiceState;

/// A vending machine in one of its states.
pub struct VendingMachine<State> {
    /// Products count.
    products: ProductCounts,
    /// Availables machine change balance.
    change_balance: CoinCounts,
    /// Available user balance.
    user_balance: CoinCounts,
    /// Current machine state.
    state: State,
}

impl<State> VendingMachine<State> {
    /// What the machine holds.
    pub closed spec fn view(&self) -> Holdings {
        Holdings {
            products: self.products@,
            change_balance: self.change_balance@,
            user_balance: self.user_balance@,
        }
    }
}

/// VendingMachine builder.
impl VendingMachine<MaintenanceState> {
    /// A machine that holds nothing.
    pub fn builder() -> (machine: Self)
        ensures
            machine@ == (Holdings {
                products: Map::empty(),
                change_balance: Map::empty(),
                user_balance: Map::empty(),
            }),
    {
        VendingMachine {
            products: ProductCounts::new(),
            change_balance: CoinCounts::new(),
            user_balance: CoinCounts::new(),
            state: MaintenanceState,
        }
    }

    /// Stocks one more of `product`.
    pub fn add_product(self, product: Product) -> (machine: Self)
        requires
            count_of(self@.products, product) < u64::MAX,
        ensures
            machine@ == (Holdings { products: added(self@.products, product), ..self@ }),
    {
        let mut machine = self;
        let count = match machine.products.get(&product) {
            Some(count) => count,
            None => 0,
        };
        machine.products.insert(product, count + 1);
        machine
    }

    /// Stocks one more of each of `products`.
    pub fn add_products(self, products: Vec<Product>) -> (machine: Self)
        requires
            room_for(self@.products, products@),
        ensures
            machine@ == (Holdings { products: all_added(self@.products, products@), ..self@ }),
    {
        let mut machine = self;
        let ghost all = products@;
        proof {
            assert(all.skip(0) =~= all);
        }
        for product in iter: products
            invariant
                iter.seq() == all,
                machine@.change_balance == self@.change_balance,
                machine@.user_balance == self@.user_balance,
                room_for(machine@.products, all.skip(iter.index() as int)),
                all_added(machine@.products, all.skip(iter.index() as int)) == all_added(
                    self@.products,
                    all,
                ),
        {
            proof {
                let rest = all.skip(iter.index() as int);
                assert(rest.first() == product);
                assert(rest.drop_first() =~= all.skip(iter.index() + 1));
            }
            machine = machine.add_product(product);
        }
        machine
    }

    /// Loads one more of `coin` as change.
    pub fn add_coin(self, coin: Coin) -> (machine: Self)
        requires
            count_of(self@.change_balance, coin) < u64::MAX,
        ensures
            machine@ == (Holdings { change_balance: added(self@.change_balance, coin), ..self@ }),
    {
        let mut machine = self;
        let count = match machine.change_balance.get(&coin) {
            Some(count) => count,
            None => 0,
        };
        machine.change_balance.insert(coin, count + 1);
        machine
    }

    /// Loads one more of each of `coins` as change.
    pub fn add_coins(self, coins: Vec<Coin>) -> (machine: Self)
        requires
            room_for(self@.change_balance, coins@),
        ensures
            machine@ == (Holdings {
                change_balance: all_added(self@.change_balance, coins@),
                ..self@
            }),
    {
        let mut machine = self;
        let ghost all = coins@;
        proof {
            assert(all.skip(0) =~= all);
        }
        for coin in iter: coins
            invariant
                iter.seq() == all,
                machine@.products == self@.products,
                machine@.user_balance == self@.user_balance,
                room_for(machine@.change_balance, all.skip(iter.index() as int)),
                all_added(machine@.change_balance, all.skip(iter.index() as int)) == all_added(
                    self@.change_balance,
                    all,
                ),
        {
            proof {
                let rest = all.skip(iter.index() as int);
                assert(rest.first() == coin);
                assert(rest.drop_first() =~= all.skip(iter.index() + 1));
            }
            machine = machine.add_coin(coin);
        }
        machine
    }

    /// The machine with the same holdings, ready to serve.
    pub fn build(self) -> (machine: VendingMachine<UserServiceState>)
        ensures
            machine@ == self@,
    {
        VendingMachine {
            products: self.products,
            change_balance: self.change_balance,
            user_balance: self.user_balance,
            state: UserServiceState,
        }
    }
}

impl Coin {
    /// The place of the coin among the coins from the largest to the smallest.
    pub open spec fn rank(self) -> int {
        match self {
            Coin::N50 => 0,
            Coin::N20 => 1,
            Coin::N10 => 2,
            Coin::N5 => 3,
            Coin::N2 => 4,
            Coin::N1 => 5,
        }
    }
}

/// The change for `amount` as far as the `steps` largest coins go, and what
/// is still owed after them. Of each coin in turn, from the largest down,
/// as many are given as fit into what is owed and as are available.
pub open spec fn change_after(amount: nat, available: Map<Coin, u64>, steps: nat) -> (
    Map<Coin, u64>,
    nat,
)
    decreases steps,
{
    if steps == 0 || steps > 6 {
        (Map::empty(), amount)
    } else {
        let (change, owed) = change_after(amount, available, (steps - 1) as nat);
        let coin = Coin::descending()[steps - 1];
        let fitting = owed / (coin.nominal() as nat);
        let given = if fitting < count_of(available, coin) {
            fitting
        } else {
            count_of(available, coin) as nat
        };
        (change.insert(coin, given as u64), (owed - given * coin.nominal()) as nat)
    }
}

/// The change for `amount` out of the `available` coins, and what cannot
/// be given.
pub open spec fn change_for(amount: nat, available: Map<Coin, u64>) -> (Map<Coin, u64>, nat) {
    change_after(amount, available, 6)
}

/// The coins that are left of `available` when `change` has been given.
pub open spec fn paid_out(available: Map<Coin, u64>, change: Map<Coin, u64>) -> Map<Coin, u64> {
    Map::new(
        |coin: Coin| available.contains_key(coin) || change.contains_key(coin),
        |coin: Coin| (count_of(available, coin) - count_of(change, coin)) as u64,
    )
}

/// The coins that are left of `available` when the `steps` largest kinds
/// of coins of `change` have been given.
pub open spec fn paid_out_after(
    available: Map<Coin, u64>,
    change: Map<Coin, u64>,
    steps: int,
) -> Map<Coin, u64> {
    Map::new(
        |coin: Coin| available.contains_key(coin) || coin.rank() < steps,
        |coin: Coin|
            if coin.rank() < steps {
                (count_of(available, coin) - count_of(change, coin)) as u64
            } else {
                available[coin]
            },
    )
}

/// Represents purchase status.
pub enum PurchaseStatus {
    Success { product: Product, change: CoinCounts },
    NotEnoughtBalance,
    NotEnoughtProduct,
    CannotGiveChange,
}

/// The change is given in full, out of what is available, and is worth
/// what was owed.
pub proof fn lemma_change(amount: nat, available: Map<Coin, u64>, steps: nat)
    requires
        steps <= 6,
    ensures
        forall|coin: Coin|
            change_after(amount, available, steps).0.contains_key(coin) <==> coin.rank() < steps,
        forall|coin: Coin|
            count_of(change_after(amount, available, steps).0, coin) <= count_of(available, coin),
        worth(change_after(amount, available, steps).0) + change_after(amount, available, steps).1
            == amount,
    decreases steps,
{
    if steps > 0 {
        lemma_change(amount, available, (steps - 1) as nat);
        let (change, owed) = change_after(amount, available, (steps - 1) as nat);
        let coin = Coin::descending()[steps - 1];
        assert(coin.rank() == steps - 1);
        assert(!change.contains_key(coin));
        let fitting = owed / (coin.nominal() as nat);
        assert(fitting * coin.nominal() <= owed) by (nonlinear_arith)
            requires
                fitting == owed / (coin.nominal() as nat),
                coin.nominal() > 0,
        ;
        let given = if fitting < count_of(available, coin) {
            fitting
        } else {
            count_of(available, coin) as nat
        };
        assert(given * coin.nominal() <= fitting * coin.nominal()) by (nonlinear_arith)
            requires
                given <= fitting,
        ;
        let next = change.insert(coin, given as u64);
        assert(change_after(amount, available, steps).0 == next);
        assert forall|other: Coin| next.contains_key(other) <==> other.rank() < steps by {
            if other.rank() == steps - 1 {
                assert(other == coin);
            }
        }
        assert(worth(next) == worth(change) + given * coin.nominal());
    }
}

impl CoinCounts {
    /// The count of `coin`, which is zero where the coin is absent.
    pub fn count(&self, coin: &Coin) -> (count: u64)
        ensures
            count == count_of(self@, *coin),
    {
        match self.get(coin) {
            Some(count) => count,
            None => 0,
        }
    }

    /// What the coins are worth together.
    pub fn total(&self) -> (total: u64)
        requires
            worth(self@) <= u64::MAX,
        ensures
            total == worth(self@),
    {
        let mut total: u64 = 0;
        let coins = Coin::big_to_small();
        for i in 0..coins.len()
            invariant
                coins@ == Coin::descending(),
                worth(self@) <= u64::MAX,
                total == worth_after(self@, i as nat),
        {
            proof {
                lemma_worth_grows(self@, (i + 1) as nat);
            }
            let coin = coins[i];
            total = total + u64::from(&coin) * self.count(&coin);
        }
        proof {
            lemma_worth_grows(self@, 6);
        }
        total
    }
}

/// What the `steps` largest kinds of coins are worth together.
pub open spec fn worth_after(coins: Map<Coin, u64>, steps: nat) -> nat
    decreases steps,
{
    if steps == 0 || steps > 6 {
        0
    } else {
        let coin = Coin::descending()[steps - 1];
        worth_after(coins, (steps - 1) as nat) + (coin.nominal() * count_of(coins, coin)) as nat
    }
}

/// The worth of the largest kinds of coins does not exceed the worth of all.
proof fn lemma_worth_grows(coins: Map<Coin, u64>, steps: nat)
    requires
        steps <= 6,
    ensures
        worth_after(coins, steps) <= worth(coins),
        worth_after(coins, 6) == worth(coins),
{
    lemma_worth_step(coins, 1);
    lemma_worth_step(coins, 2);
    lemma_worth_step(coins, 3);
    lemma_worth_step(coins, 4);
    lemma_worth_step(coins, 5);
    lemma_worth_step(coins, 6);
}

/// One more kind of coin adds its count times what the coin is worth.
proof fn lemma_worth_step(coins: Map<Coin, u64>, steps: nat)
    requires
        1 <= steps <= 6,
    ensures
        worth_after(coins, steps) == worth_after(coins, (steps - 1) as nat) + (if steps == 1 {
            50 * count_of(coins, Coin::N50)
        } else if steps == 2 {
            20 * count_of(coins, Coin::N20)
        } else if steps == 3 {
            10 * count_of(coins, Coin::N10)
        } else if steps == 4 {
            5 * count_of(coins, Coin::N5)
        } else if steps == 5 {
            2 * count_of(coins, Coin::N2)
        } else {
            1 * count_of(coins, Coin::N1)
        }),
        worth_after(coins, 0) == 0,
{
    let coin = Coin::descending()[steps - 1];
    assert(coin.rank() == steps - 1);
}

/// Simple user interface.
impl VendingMachine<UserServiceState> {
    /// Takes a coin from the customer: it counts towards the customer's
    /// balance and can be given as change.
    pub fn insert_coin(&mut self, coin: Coin)
        requires
            count_of(old(self)@.user_balance, coin) < u64::MAX,
            count_of(old(self)@.change_balance, coin) < u64::MAX,
        ensures
            final(self)@ == (Holdings {
                user_balance: added(old(self)@.user_balance, coin),
                change_balance: added(old(self)@.change_balance, coin),
                ..old(self)@
            }),
    {
        let paid = self.user_balance.count(&coin);
        self.user_balance.insert(coin, paid + 1);
        let held = self.change_balance.count(&coin);
        self.change_balance.insert(coin, held + 1);
    }

    /// Takes coins from the customer, one after another.
    pub fn insert_coins(&mut self, coins: Vec<Coin>)
        requires
            room_for(old(self)@.user_balance, coins@),
            room_for(old(self)@.change_balance, coins@),
        ensures
            final(self)@ == (Holdings {
                user_balance: all_added(old(self)@.user_balance, coins@),
                change_balance: all_added(old(self)@.change_balance, coins@),
                ..old(self)@
            }),
    {
        let ghost all = coins@;
        proof {
            assert(all.skip(0) =~= all);
        }
        for coin in iter: coins
            invariant
                iter.seq() == all,
                self@.products == old(self)@.products,
                room_for(self@.user_balance, all.skip(iter.index() as int)),
                room_for(self@.change_balance, all.skip(iter.index() as int)),
                all_added(self@.user_balance, all.skip(iter.index() as int)) == all_added(
                    old(self)@.user_balance,
                    all,
                ),
                all_added(self@.change_balance, all.skip(iter.index() as int)) == all_added(
                    old(self)@.change_balance,
                    all,
                ),
        {
            proof {
                let rest = all.skip(iter.index() as int);
                assert(rest.first() == coin);
                assert(rest.drop_first() =~= all.skip(iter.index() + 1));
            }
            self.insert_coin(coin);
        }
    }

    /// Sells `product` if it is in stock, the customer's balance covers its
    /// price and the change can be given; otherwise nothing changes.
    ///
    /// On a sale the change leaves the machine's coins and the customer's
    /// balance is used up. The stock is counted as it was.
    pub fn purchase(&mut self, product: Product) -> (status: PurchaseStatus)
        requires
            worth(old(self)@.user_balance) <= u64::MAX,
        ensures
            match status {
                PurchaseStatus::NotEnoughtProduct => {
                    &&& count_of(old(self)@.products, product) == 0
                    &&& final(self)@ == old(self)@
                },
                PurchaseStatus::NotEnoughtBalance => {
                    &&& count_of(old(self)@.products, product) != 0
                    &&& worth(old(self)@.user_balance) < product.spec_price()
                    &&& final(self)@ == old(self)@
                },
                PurchaseStatus::CannotGiveChange => {
                    &&& count_of(old(self)@.products, product) != 0
                    &&& worth(old(self)@.user_balance) >= product.spec_price()
                    &&& change_for(
                        (worth(old(self)@.user_balance) - product.spec_price()) as nat,
                        old(self)@.change_balance,
                    ).1 != 0
                    &&& final(self)@ == old(self)@
                },
                PurchaseStatus::Success { product: sold, change } => {
                    &&& count_of(old(self)@.products, product) != 0
                    &&& worth(old(self)@.user_balance) >= product.spec_price()
                    &&& change_for(
                        (worth(old(self)@.user_balance) - product.spec_price()) as nat,
                        old(self)@.change_balance,
                    ) == (change@, 0nat)
                    &&& worth(change@) == worth(old(self)@.user_balance) - product.spec_price()
                    &&& sold == product
                    &&& final(self)@ == (Holdings {
                        products: old(self)@.products,
                        change_balance: paid_out(old(self)@.change_balance, change@),
                        user_balance: Map::empty(),
                    })
                },
            },
    {
        let stock = match self.products.get(&product) {
            Some(stock) => stock,
            None => 0,
        };
        if stock == 0 {
            return PurchaseStatus::NotEnoughtProduct;
        }
        let user_balance = self.user_balance.total();
        if user_balance < product.price() {
            return PurchaseStatus::NotEnoughtBalance;
        }
        let ghost amount = (user_balance - product.price()) as nat;
        let ghost available = self.change_balance@;
        let mut change_value = user_balance - product.price();
        let mut change = CoinCounts::new();
        let coins = Coin::big_to_small();
        for i in 0..coins.len()
            invariant
                coins@ == Coin::descending(),
                self@ == old(self)@,
                available == self.change_balance@,
                (change@, change_value as nat) == change_after(amount, available, i as nat),
        {
            proof {
                lemma_change(amount, available, (i + 1) as nat);
            }
            let coin = coins[i];
            let fitting = change_value / u64::from(&coin);
            let held = self.change_balance.count(&coin);
            let given = if fitting < held {
                fitting
            } else {
                held
            };
            assert(given * coin.nominal() <= change_value) by (nonlinear_arith)
                requires
                    given <= fitting,
                    fitting == change_value / coin.nominal(),
                    coin.nominal() > 0,
            ;
            change.insert(coin, given);
            change_value = change_value - given * u64::from(&coin);
        }
        if change_value != 0 {
            return PurchaseStatus::CannotGiveChange;
        }
        proof {
            lemma_change(amount, available, 6);
            assert(self.change_balance@ =~= paid_out_after(available, change@, 0));
        }
        for i in 0..coins.len()
            invariant
                coins@ == Coin::descending(),
                self@.products == old(self)@.products,
                forall|coin: Coin| count_of(change@, coin) <= count_of(available, coin),
                forall|coin: Coin| change@.contains_key(coin),
                self.change_balance@ == paid_out_after(available, change@, i as int),
        {
            let coin = coins[i];
            proof {
                assert(coin.rank() == i);
            }
            let held = self.change_balance.count(&coin);
            let given = change.count(&coin);
            assert(held == count_of(available, coin));
            assert(given <= count_of(available, coin));
            self.change_balance.insert(coin, held - given);
            proof {
                assert(self.change_balance@ =~= paid_out_after(available, change@, i + 1));
            }
        }
        self.user_balance = CoinCounts::new();
        proof {
            assert(paid_out_after(available, change@, 6) =~= paid_out(available, change@));
        }
        PurchaseStatus::Success { product, change }
    }

    /// The coins that the customer has inserted since the last sale.
    pub fn get_balance(&self) -> (balance: &CoinCounts)
        ensures
            balance@ == self@.user_balance,
    {
        &self.user_balance
    }
}

} // verus!
