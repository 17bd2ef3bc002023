use service_marketplace::plan::{plan_listing, plan_purchase, plan_resale};
use service_marketplace::record::{
    texts_fit, MAX_DESCRIPTION_LEN, MAX_SERVICE_NAME_LEN, SERVICE_ACCOUNT_SPACE,
};
use service_marketplace::royalty::{split_sale, SaleSplit, ROYALTY_PERCENT};
use service_marketplace::{Identity, Ledger, MarketError, Party, ServiceAccount, Step};

fn id(n: u128) -> Identity {
    Identity::new(n, n + 1)
}

fn record(price: u64) -> ServiceAccount {
    ServiceAccount {
        vendor: id(3),
        service_name: String::from("Lesson"),
        description: String::from("A lesson"),
        price,
        is_soulbound: false,
        mint: id(6),
    }
}

#[test]
fn identity_keeps_both_halves() {
    let a = Identity::new(1, 2);
    assert_eq!(a.hi, 1);
    assert_eq!(a.lo, 2);
    assert_eq!(a, Identity { hi: 1, lo: 2 });
    assert_ne!(a, Identity::new(2, 1));
    assert_ne!(a, Identity::new(1, 3));
}

#[test]
fn party_records_the_signature() {
    assert_eq!(Party::signer(id(1)), Party { identity: id(1), signed: true });
    assert_eq!(Party::bystander(id(1)), Party { identity: id(1), signed: false });
}

#[test]
fn split_gives_five_percent_rounded_down() {
    assert_eq!(ROYALTY_PERCENT, 5);
    assert_eq!(split_sale(200), Ok(SaleSplit { royalty_fee: 10, remaining: 190 }));
    assert_eq!(split_sale(100), Ok(SaleSplit { royalty_fee: 5, remaining: 95 }));
    assert_eq!(split_sale(99), Ok(SaleSplit { royalty_fee: 4, remaining: 95 }));
    assert_eq!(split_sale(20), Ok(SaleSplit { royalty_fee: 1, remaining: 19 }));
    assert_eq!(split_sale(19), Ok(SaleSplit { royalty_fee: 0, remaining: 19 }));
    assert_eq!(split_sale(39), Ok(SaleSplit { royalty_fee: 1, remaining: 38 }));
    assert_eq!(split_sale(1), Ok(SaleSplit { royalty_fee: 0, remaining: 1 }));
}

#[test]
fn split_of_nothing_is_nothing() {
    assert_eq!(split_sale(0), Ok(SaleSplit { royalty_fee: 0, remaining: 0 }));
}

#[test]
fn split_fails_where_the_product_overflows() {
    let largest = u64::MAX / 5;
    assert_eq!(largest, 3_689_348_814_741_910_323);
    assert_eq!(
        split_sale(largest),
        Ok(SaleSplit { royalty_fee: 184_467_440_737_095_516, remaining: 3_504_881_374_004_814_807 })
    );
    assert_eq!(split_sale(largest + 1), Err(MarketError::ArithmeticOverflow));
    assert_eq!(split_sale(u64::MAX), Err(MarketError::ArithmeticOverflow));
}

#[test]
fn reserved_space_of_a_record() {
    assert_eq!(MAX_SERVICE_NAME_LEN, 50);
    assert_eq!(MAX_DESCRIPTION_LEN, 100);
    assert_eq!(SERVICE_ACCOUNT_SPACE, 239);
    assert!(texts_fit(&String::new(), &String::new()));
    assert!(texts_fit(&"a".repeat(50), &"b".repeat(100)));
    assert!(!texts_fit(&"a".repeat(51), &"b".repeat(100)));
    assert!(!texts_fit(&"a".repeat(50), &"b".repeat(101)));
    assert!(!texts_fit(&"\u{20ac}".repeat(17), &String::new()));
    assert!(texts_fit(&"\u{20ac}".repeat(16), &"\u{20ac}".repeat(33)));
}

#[test]
fn record_clone_keeps_every_field() {
    let first = record(42);
    let copy = first.clone();
    assert_eq!(copy.vendor, first.vendor);
    assert_eq!(copy.service_name, "Lesson");
    assert_eq!(copy.description, "A lesson");
    assert_eq!(copy.price, 42);
    assert_eq!(copy.is_soulbound, false);
    assert_eq!(copy.mint, first.mint);
}

#[test]
fn listing_plan_mints_one_unit_to_the_vendor() {
    assert_eq!(
        plan_listing(id(3), id(6), false),
        vec![Step::Mint { token: id(6), authority: id(3), to: id(3), amount: 1 }]
    );
}

#[test]
fn soulbound_listing_plan_revokes_after_minting() {
    assert_eq!(
        plan_listing(id(3), id(6), true),
        vec![
            Step::Mint { token: id(6), authority: id(3), to: id(3), amount: 1 },
            Step::RevokeMintAuthority { token: id(6), authority: id(3) },
        ]
    );
}

#[test]
fn purchase_plan_pays_before_handing_over() {
    assert_eq!(
        plan_purchase(id(1), &record(100), id(4)),
        vec![
            Step::Transfer { token: id(1), from: id(4), to: id(3), amount: 100 },
            Step::Transfer { token: id(6), from: id(3), to: id(4), amount: 1 },
        ]
    );
}

#[test]
fn resale_plan_pays_then_shares_then_hands_over() {
    assert_eq!(
        plan_resale(id(1), &record(100), id(4), id(5), 200),
        Ok(vec![
            Step::Transfer { token: id(1), from: id(5), to: id(4), amount: 200 },
            Step::Transfer { token: id(1), from: id(4), to: id(3), amount: 10 },
            Step::Transfer { token: id(6), from: id(4), to: id(5), amount: 1 },
        ])
    );
    assert_eq!(
        plan_resale(id(1), &record(100), id(4), id(5), u64::MAX),
        Err(MarketError::ArithmeticOverflow)
    );
}

#[test]
fn new_ledger_knows_only_the_currency() {
    let ledger = Ledger::new(id(1), id(2));
    assert_eq!(ledger.currency(), id(1));
    assert!(ledger.is_issued(id(1)));
    assert_eq!(ledger.authority(id(1)), Some(id(2)));
    assert_eq!(ledger.supply(id(1)), 0);
    assert_eq!(ledger.balance(id(1), id(2)), 0);
    assert!(!ledger.is_issued(id(6)));
    assert_eq!(ledger.authority(id(6)), None);
    assert_eq!(ledger.supply(id(6)), 0);
}

#[test]
fn mint_creates_a_token_and_adds_to_it() {
    let mut ledger = Ledger::new(id(1), id(2));
    assert_eq!(ledger.mint(id(6), id(3), id(4), 7), Ok(()));
    assert!(ledger.is_issued(id(6)));
    assert_eq!(ledger.authority(id(6)), Some(id(3)));
    assert_eq!(ledger.supply(id(6)), 7);
    assert_eq!(ledger.balance(id(6), id(4)), 7);
    assert_eq!(ledger.balance(id(6), id(3)), 0);
    assert_eq!(ledger.mint(id(6), id(3), id(4), 3), Ok(()));
    assert_eq!(ledger.mint(id(6), id(3), id(5), 2), Ok(()));
    assert_eq!(ledger.supply(id(6)), 12);
    assert_eq!(ledger.balance(id(6), id(4)), 10);
    assert_eq!(ledger.balance(id(6), id(5)), 2);
    assert_eq!(ledger.supply(id(1)), 0);
}

#[test]
fn mint_by_another_than_the_authority_is_unauthorized() {
    let mut ledger = Ledger::new(id(1), id(2));
    assert_eq!(ledger.mint(id(1), id(3), id(3), 5), Err(MarketError::Unauthorized));
    assert_eq!(ledger.supply(id(1)), 0);
    assert_eq!(ledger.balance(id(1), id(3)), 0);
}

#[test]
fn mint_beyond_sixty_four_bits_is_refused_by_the_ledger() {
    let mut ledger = Ledger::new(id(1), id(2));
    assert_eq!(ledger.mint(id(1), id(2), id(3), u64::MAX - 1), Ok(()));
    assert_eq!(ledger.mint(id(1), id(2), id(4), 2), Err(MarketError::LedgerOperationFailed));
    assert_eq!(ledger.supply(id(1)), u64::MAX - 1);
    assert_eq!(ledger.balance(id(1), id(4)), 0);
    assert_eq!(ledger.mint(id(1), id(2), id(4), 1), Ok(()));
    assert_eq!(ledger.supply(id(1)), u64::MAX);
    assert_eq!(ledger.transfer(id(1), id(3), id(4), u64::MAX - 1), Ok(()));
    assert_eq!(ledger.balance(id(1), id(4)), u64::MAX);
    assert_eq!(ledger.balance(id(1), id(3)), 0);
}

#[test]
fn revoked_authority_cannot_mint() {
    let mut ledger = Ledger::new(id(1), id(2));
    assert_eq!(ledger.revoke_mint_authority(id(1), id(2)), Ok(()));
    assert_eq!(ledger.authority(id(1)), None);
    assert!(ledger.is_issued(id(1)));
    assert_eq!(ledger.mint(id(1), id(2), id(3), 1), Err(MarketError::MintFailed));
}

#[test]
fn revocation_is_for_the_authority_alone_and_once() {
    let mut ledger = Ledger::new(id(1), id(2));
    assert_eq!(ledger.revoke_mint_authority(id(1), id(3)), Err(MarketError::Unauthorized));
    assert_eq!(ledger.authority(id(1)), Some(id(2)));
    assert_eq!(
        ledger.revoke_mint_authority(id(6), id(2)),
        Err(MarketError::AuthorityRevocationFailed)
    );
    assert_eq!(ledger.revoke_mint_authority(id(1), id(2)), Ok(()));
    assert_eq!(
        ledger.revoke_mint_authority(id(1), id(2)),
        Err(MarketError::AuthorityRevocationFailed)
    );
}

#[test]
fn transfer_moves_units_between_owners() {
    let mut ledger = Ledger::new(id(1), id(2));
    ledger.mint(id(1), id(2), id(3), 10).unwrap();
    assert_eq!(ledger.transfer(id(1), id(3), id(4), 4), Ok(()));
    assert_eq!(ledger.balance(id(1), id(3)), 6);
    assert_eq!(ledger.balance(id(1), id(4)), 4);
    assert_eq!(ledger.transfer(id(1), id(3), id(4), 6), Ok(()));
    assert_eq!(ledger.balance(id(1), id(3)), 0);
    assert_eq!(ledger.balance(id(1), id(4)), 10);
    assert_eq!(ledger.supply(id(1)), 10);
}

#[test]
fn transfer_names_the_shortfall_by_the_kind_of_token() {
    let mut ledger = Ledger::new(id(1), id(2));
    ledger.mint(id(1), id(2), id(3), 10).unwrap();
    ledger.mint(id(6), id(3), id(3), 1).unwrap();
    assert_eq!(ledger.transfer(id(1), id(3), id(4), 11), Err(MarketError::InsufficientFunds));
    assert_eq!(
        ledger.transfer(id(6), id(3), id(4), 2),
        Err(MarketError::InsufficientAssetBalance)
    );
    assert_eq!(
        ledger.transfer(id(9), id(3), id(4), 1),
        Err(MarketError::InsufficientAssetBalance)
    );
    assert_eq!(ledger.balance(id(1), id(3)), 10);
    assert_eq!(ledger.balance(id(6), id(3)), 1);
}

#[test]
fn transfer_of_nothing_and_to_oneself_change_nothing() {
    let mut ledger = Ledger::new(id(1), id(2));
    ledger.mint(id(1), id(2), id(3), 10).unwrap();
    assert_eq!(ledger.transfer(id(1), id(3), id(4), 0), Ok(()));
    assert_eq!(ledger.transfer(id(1), id(5), id(4), 0), Ok(()));
    assert_eq!(ledger.transfer(id(9), id(5), id(4), 0), Ok(()));
    assert_eq!(ledger.transfer(id(1), id(3), id(3), 10), Ok(()));
    assert_eq!(ledger.transfer(id(1), id(3), id(3), 11), Err(MarketError::InsufficientFunds));
    assert_eq!(ledger.balance(id(1), id(3)), 10);
    assert_eq!(ledger.balance(id(1), id(4)), 0);
    assert!(!ledger.is_issued(id(9)));
}

#[test]
fn apply_carries_out_one_step() {
    let mut ledger = Ledger::new(id(1), id(2));
    let mint = Step::Mint { token: id(1), authority: id(2), to: id(3), amount: 5 };
    assert_eq!(ledger.apply(&mint), Ok(()));
    let pay = Step::Transfer { token: id(1), from: id(3), to: id(4), amount: 2 };
    assert_eq!(ledger.apply(&pay), Ok(()));
    let revoke = Step::RevokeMintAuthority { token: id(1), authority: id(2) };
    assert_eq!(ledger.apply(&revoke), Ok(()));
    assert_eq!(ledger.apply(&mint), Err(MarketError::MintFailed));
    assert_eq!(ledger.balance(id(1), id(3)), 3);
    assert_eq!(ledger.balance(id(1), id(4)), 2);
    assert_eq!(ledger.supply(id(1)), 5);
}

#[test]
fn execute_is_all_or_nothing() {
    let mut ledger = Ledger::new(id(1), id(2));
    ledger.mint(id(1), id(2), id(3), 10).unwrap();
    let steps = vec![
        Step::Transfer { token: id(1), from: id(3), to: id(4), amount: 6 },
        Step::Mint { token: id(6), authority: id(3), to: id(3), amount: 1 },
        Step::Transfer { token: id(1), from: id(3), to: id(4), amount: 6 },
    ];
    assert_eq!(ledger.execute(&steps), Err(MarketError::InsufficientFunds));
    assert_eq!(ledger.balance(id(1), id(3)), 10);
    assert_eq!(ledger.balance(id(1), id(4)), 0);
    assert!(!ledger.is_issued(id(6)));
    assert_eq!(ledger.balance(id(6), id(3)), 0);

    let steps = vec![
        Step::Transfer { token: id(1), from: id(3), to: id(4), amount: 6 },
        Step::Mint { token: id(6), authority: id(3), to: id(3), amount: 1 },
        Step::Transfer { token: id(1), from: id(4), to: id(3), amount: 1 },
    ];
    assert_eq!(ledger.execute(&steps), Ok(()));
    assert_eq!(ledger.balance(id(1), id(3)), 5);
    assert_eq!(ledger.balance(id(1), id(4)), 5);
    assert_eq!(ledger.balance(id(6), id(3)), 1);
    assert_eq!(ledger.execute(&Vec::new()), Ok(()));
}

#[test]
fn executing_a_plan_by_hand_is_the_operation() {
    let mut ledger = Ledger::new(id(1), id(2));
    ledger.mint(id(1), id(2), id(4), 150).unwrap();
    assert_eq!(ledger.execute(&plan_listing(id(3), id(6), true)), Ok(()));
    assert_eq!(ledger.authority(id(6)), None);
    assert_eq!(ledger.balance(id(6), id(3)), 1);
    assert_eq!(ledger.execute(&plan_purchase(id(1), &record(100), id(4))), Ok(()));
    assert_eq!(ledger.balance(id(1), id(4)), 50);
    assert_eq!(ledger.balance(id(1), id(3)), 100);
    assert_eq!(ledger.balance(id(6), id(4)), 1);
}
