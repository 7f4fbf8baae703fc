use nft_contract::amount::ONE_NEAR;
use nft_contract::mint::{
    GAS_FOR_MINTING, GAS_PER_DONATE, OVERPAY_TOLERANCE, STORAGE_BUFFER,
};
use nft_contract::{
    AssocMap, Context, Contract, Error, EventLogVariant, NonFungibleTokenCore, SubRequest,
    TokenMetadata,
};

const REGISTRY: &str = "registry.near";
const ALICE: &str = "alice.near";
const BOB: &str = "bob.near";

fn text(s: &str) -> String {
    s.to_string()
}

fn template(title: &str) -> TokenMetadata {
    TokenMetadata {
        title: Some(text(title)),
        description: Some(text("a certificate")),
        media: None,
        media_hash: None,
        copies: None,
        issued_at: None,
        expires_at: None,
        starts_at: None,
        updated_at: None,
        extra: None,
        reference: None,
        reference_hash: None,
    }
}

fn call(predecessor: &str, signer: &str, attached_deposit: u128) -> Context {
    Context {
        predecessor_account_id: text(predecessor),
        signer_account_id: text(signer),
        current_account_id: text(REGISTRY),
        attached_deposit,
        prepaid_gas: 300_000_000_000_000,
    }
}

fn registry_with_categories() -> Contract {
    let mut registry = Contract::new_default_meta(text(REGISTRY));
    let ctx = call(REGISTRY, REGISTRY, STORAGE_BUFFER);
    assert!(registry.generate_template(&ctx, text("forest-"), template("Forest")).is_ok());
    assert!(registry.generate_template(&ctx, text("ocean-"), template("Ocean")).is_ok());
    registry
}

fn mint_for(registry: &mut Contract, owner: &str, token_id: &str, amount: &str) {
    let own = call(REGISTRY, owner, STORAGE_BUFFER);
    let done = registry.nft_mint(
        &own,
        true,
        text(token_id),
        text(amount),
        template("Forest"),
        text(owner),
        None,
    );
    assert!(done.is_ok());
}

#[test]
fn fresh_category_is_minted() {
    let mut registry = registry_with_categories();
    let attached = 2 * ONE_NEAR + STORAGE_BUFFER;
    let plan = registry
        .minting_interface(&call(ALICE, ALICE, attached), text("alice-1"), vec![(0, text("2.0"))], Some(77))
        .expect("the batch is accepted");
    assert_eq!(plan.requests.len(), 1);
    assert_eq!(plan.total, 2 * ONE_NEAR + STORAGE_BUFFER);
    assert_eq!(plan.refund, 0);
    assert_eq!(plan.refund_to, ALICE);
    let (token_id, metadata, donate_amount, carried) = match &plan.requests[0] {
        SubRequest::Mint { token_id, metadata, donate_amount, attached, gas } => {
            assert_eq!(*gas, GAS_PER_DONATE);
            (token_id.clone(), metadata.clone(), donate_amount.clone(), *attached)
        }
        SubRequest::Update { .. } => panic!("a fresh category is minted"),
    };
    assert_eq!(token_id, "forest-alice-1");
    assert_eq!(donate_amount, "2.0");
    assert_eq!(carried, 2 * ONE_NEAR + STORAGE_BUFFER);
    assert_eq!(metadata.title, Some(text("Forest")));
    assert_eq!(metadata.issued_at, Some(77));
    assert!(registry.nft_token(text("forest-alice-1")).is_none());
    assert_eq!(registry.owner_index(&text(ALICE)).get(&0), Some(&text("forest-alice-1")));

    let escrow = registry
        .donate_and_mint(&call(REGISTRY, ALICE, carried), token_id, metadata, donate_amount)
        .expect("the request is accepted");
    assert_eq!(escrow.forward, 2 * ONE_NEAR);
    assert_eq!(escrow.forward_to, REGISTRY);
    assert_eq!(escrow.receiver_id, ALICE);
    assert_eq!(escrow.deposit, STORAGE_BUFFER);
    assert_eq!(escrow.gas, GAS_FOR_MINTING);
    assert!(registry.nft_token(text("forest-alice-1")).is_none());

    let receipt = registry
        .nft_mint(
            &call(REGISTRY, ALICE, escrow.deposit),
            true,
            escrow.token_id,
            escrow.donate_amount_str,
            escrow.metadata,
            escrow.receiver_id,
            None,
        )
        .expect("the mint is completed");
    assert_eq!(receipt.refund_to, ALICE);
    assert_eq!(receipt.event.standard, "nep171");
    assert_eq!(receipt.event.version, "1.0.0");
    match &receipt.event.event {
        EventLogVariant::NftMint(logs) => {
            assert_eq!(logs.len(), 1);
            assert_eq!(logs[0].owner_id, ALICE);
            assert_eq!(logs[0].token_ids, vec![text("forest-alice-1")]);
            assert_eq!(logs[0].memo, None);
        }
        EventLogVariant::NftTransfer(_) => panic!("a mint is recorded as a mint"),
    }
    let shown = registry.nft_token(text("forest-alice-1")).expect("the certificate is there");
    assert_eq!(shown.donate_amount, "2.0");
    assert_eq!(shown.owner_id, ALICE);
    assert_eq!(shown.metadata.issued_at, Some(77));
    assert_eq!(registry.tokens_of(&text(ALICE)), vec![text("forest-alice-1")]);
}

#[test]
fn second_batch_adds_to_the_certificate() {
    let mut registry = registry_with_categories();
    let first = 2 * ONE_NEAR + STORAGE_BUFFER;
    registry
        .minting_interface(&call(ALICE, ALICE, first), text("alice-1"), vec![(0, text("2.0"))], None)
        .expect("the first batch is accepted");
    mint_for(&mut registry, ALICE, "forest-alice-1", "2.0");

    let amount = 1_500_000_000_000_000_000_000_000;
    let plan = registry
        .minting_interface(&call(ALICE, ALICE, amount), text("alice-2"), vec![(0, text("1.5"))], None)
        .expect("the second batch is accepted");
    assert_eq!(plan.requests.len(), 1);
    assert_eq!(plan.total, amount);
    match &plan.requests[0] {
        SubRequest::Update { token_id, donate_amount, attached, gas } => {
            assert_eq!(token_id, "forest-alice-1");
            assert_eq!(donate_amount, "1.5");
            assert_eq!(*attached, amount);
            assert_eq!(*gas, GAS_PER_DONATE);
        }
        SubRequest::Mint { .. } => panic!("a category that is held is updated"),
    }
    let escrow = registry
        .donate_and_update(&call(REGISTRY, ALICE, amount), text("forest-alice-1"), text("1.5"))
        .expect("the request is accepted");
    assert_eq!(escrow.forward, amount);
    assert_eq!(escrow.forward_to, REGISTRY);
    assert_eq!(escrow.old_donate_amount, "2.0");
    assert_eq!(escrow.gas, GAS_FOR_MINTING);
    assert_eq!(registry.nft_token(text("forest-alice-1")).unwrap().donate_amount, "3.5");
    let told = registry.on_donate_update(
        &call(REGISTRY, ALICE, 0),
        true,
        escrow.token_id,
        escrow.old_donate_amount,
    );
    assert_eq!(told, Ok(()));
    assert_eq!(registry.nft_token(text("forest-alice-1")).unwrap().donate_amount, "3.5");
}

#[test]
fn underpaid_mint_request_is_refused() {
    let mut registry = registry_with_categories();
    let short = 2 * ONE_NEAR + STORAGE_BUFFER - 1;
    let refused = registry.donate_and_mint(
        &call(REGISTRY, ALICE, short),
        text("forest-alice-1"),
        template("Forest"),
        text("2.0"),
    );
    assert_eq!(refused.err(), Some(Error::BadAttachment));
    assert!(registry.nft_token(text("forest-alice-1")).is_none());
    assert!(registry.tokens_of(&text(ALICE)).is_empty());
    assert_eq!(registry.owner_index(&text(ALICE)).len(), 0);
}

#[test]
fn mint_request_takes_the_tolerance_and_no_more() {
    let mut registry = registry_with_categories();
    let exact = 2 * ONE_NEAR + STORAGE_BUFFER;
    for attached in [exact, exact + 1, exact + OVERPAY_TOLERANCE] {
        let taken = registry.donate_and_mint(
            &call(REGISTRY, ALICE, attached),
            text("forest-alice-1"),
            template("Forest"),
            text("2.0"),
        );
        assert_eq!(taken.map(|e| e.forward).ok(), Some(2 * ONE_NEAR));
    }
    let over = registry.donate_and_mint(
        &call(REGISTRY, ALICE, exact + OVERPAY_TOLERANCE + 1),
        text("forest-alice-1"),
        template("Forest"),
        text("2.0"),
    );
    assert_eq!(over.err(), Some(Error::BadAttachment));
}

#[test]
fn mint_request_refuses_a_text_that_is_no_amount() {
    let mut registry = registry_with_categories();
    let refused = registry.donate_and_mint(
        &call(REGISTRY, ALICE, 2 * ONE_NEAR + STORAGE_BUFFER),
        text("forest-alice-1"),
        template("Forest"),
        text("two"),
    );
    assert_eq!(refused.err(), Some(Error::BadAmount));
}

#[test]
fn mint_request_writes_the_amount_in_full() {
    let mut registry = registry_with_categories();
    let escrow = registry
        .donate_and_mint(
            &call(REGISTRY, ALICE, 2 * ONE_NEAR + STORAGE_BUFFER),
            text("forest-alice-1"),
            template("Forest"),
            text("2"),
        )
        .expect("the request is accepted");
    assert_eq!(escrow.forward, 2 * ONE_NEAR);
    assert_eq!(escrow.donate_amount_str, "2.0");
}

#[test]
fn batch_writes_amounts_in_full() {
    let mut registry = registry_with_categories();
    mint_for(&mut registry, ALICE, "forest-a", "2");
    let first = registry
        .minting_interface(&call(ALICE, ALICE, 10 * ONE_NEAR), text("a"), vec![(0, text("2"))], None)
        .expect("the batch is accepted");
    match &first.requests[0] {
        SubRequest::Mint { donate_amount, attached, .. } => {
            assert_eq!(donate_amount, "2.0");
            assert_eq!(*attached, 2 * ONE_NEAR + STORAGE_BUFFER);
        }
        SubRequest::Update { .. } => panic!("the index is empty"),
    }
    let second = registry
        .minting_interface(&call(ALICE, ALICE, 10 * ONE_NEAR), text("b"), vec![(0, text("3"))], None)
        .expect("the batch is accepted");
    match &second.requests[0] {
        SubRequest::Update { token_id, donate_amount, attached, .. } => {
            assert_eq!(token_id, "forest-a");
            assert_eq!(donate_amount, "3.0");
            assert_eq!(*attached, 3 * ONE_NEAR);
        }
        SubRequest::Mint { .. } => panic!("the certificate is there"),
    }
    let done = registry.donate_and_update(&call(REGISTRY, ALICE, 3 * ONE_NEAR), text("forest-a"), text("3"));
    assert_eq!(done.map(|e| e.old_donate_amount).ok(), Some(text("2")));
    assert_eq!(registry.nft_token(text("forest-a")).unwrap().donate_amount, "5.0");
}

#[test]
fn seven_royalties_are_refused() {
    let mut registry = registry_with_categories();
    let mut royalties: AssocMap<String, u16> = AssocMap::new();
    for i in 0..7u16 {
        royalties.insert(format!("payee{}.near", i), 100 + i);
    }
    assert_eq!(royalties.len(), 7);
    let refused = registry.nft_mint(
        &call(REGISTRY, ALICE, STORAGE_BUFFER),
        true,
        text("forest-alice-1"),
        text("2.0"),
        template("Forest"),
        text(ALICE),
        Some(royalties),
    );
    assert_eq!(refused.err(), Some(Error::TooManyRoyalties));
    assert!(registry.nft_token(text("forest-alice-1")).is_none());
    assert!(registry.token(&text("forest-alice-1")).is_none());
    assert!(registry.tokens_of(&text(ALICE)).is_empty());
}

#[test]
fn minted_royalties_read_back() {
    let mut registry = registry_with_categories();
    let mut royalties: AssocMap<String, u16> = AssocMap::new();
    let shares: [(&str, u16); 6] = [
        ("f.near", 6),
        ("a.near", 1),
        ("e.near", 5),
        ("b.near", 2),
        ("d.near", 4),
        ("c.near", 3),
    ];
    for (payee, share) in shares {
        royalties.insert(text(payee), share);
    }
    let done = registry.nft_mint(
        &call(REGISTRY, ALICE, STORAGE_BUFFER),
        true,
        text("forest-alice-1"),
        text("2.0"),
        template("Forest"),
        text(ALICE),
        Some(royalties),
    );
    assert!(done.is_ok());
    let shown = registry.nft_token(text("forest-alice-1")).expect("the certificate is there");
    assert_eq!(shown.royalty.len(), 6);
    for (payee, share) in [("a.near", 1u16), ("b.near", 2), ("c.near", 3), ("d.near", 4), ("e.near", 5), ("f.near", 6)] {
        assert_eq!(shown.royalty.get(&text(payee)), Some(&share));
    }
    assert_eq!(shown.royalty.get(&text("g.near")), None);
}

#[test]
fn mint_without_royalties_has_none() {
    let mut registry = registry_with_categories();
    mint_for(&mut registry, ALICE, "forest-alice-1", "2.0");
    let shown = registry.nft_token(text("forest-alice-1")).unwrap();
    assert_eq!(shown.royalty.len(), 0);
}

#[test]
fn minted_certificate_approves_the_registry_under_number_zero() {
    let mut registry = registry_with_categories();
    mint_for(&mut registry, ALICE, "forest-alice-1", "2.0");
    let token = registry.token(&text("forest-alice-1")).expect("the certificate is there");
    assert_eq!(token.next_approval_id, 1);
    assert_eq!(token.approved_account_ids.len(), 1);
    assert_eq!(token.approved_account_ids.get(&text(REGISTRY)), Some(&0));
    for account in token.approved_account_ids.keys() {
        assert!(*token.approved_account_ids.get(&account).unwrap() < token.next_approval_id);
    }
}

#[test]
fn mint_is_for_the_registry_alone() {
    let mut registry = registry_with_categories();
    let refused = registry.nft_mint(
        &call(ALICE, ALICE, STORAGE_BUFFER),
        true,
        text("forest-alice-1"),
        text("2.0"),
        template("Forest"),
        text(ALICE),
        None,
    );
    assert_eq!(refused.err(), Some(Error::Forbidden));
    assert!(registry.nft_token(text("forest-alice-1")).is_none());
}

#[test]
fn mint_needs_the_donation_forwarded() {
    let mut registry = registry_with_categories();
    let refused = registry.nft_mint(
        &call(REGISTRY, ALICE, STORAGE_BUFFER),
        false,
        text("forest-alice-1"),
        text("2.0"),
        template("Forest"),
        text(ALICE),
        None,
    );
    assert_eq!(refused.err(), Some(Error::ForwardingFailed));
    assert!(registry.nft_token(text("forest-alice-1")).is_none());
}

#[test]
fn mint_refuses_a_name_that_is_taken() {
    let mut registry = registry_with_categories();
    mint_for(&mut registry, ALICE, "forest-x", "2.0");
    let refused = registry.nft_mint(
        &call(REGISTRY, BOB, STORAGE_BUFFER),
        true,
        text("forest-x"),
        text("9.0"),
        template("Ocean"),
        text(BOB),
        None,
    );
    assert_eq!(refused.err(), Some(Error::AlreadyExists));
    let shown = registry.nft_token(text("forest-x")).unwrap();
    assert_eq!(shown.owner_id, ALICE);
    assert_eq!(shown.donate_amount, "2.0");
    assert!(registry.tokens_of(&text(BOB)).is_empty());
}

#[test]
fn batch_must_come_from_the_signer() {
    let mut registry = registry_with_categories();
    let refused = registry.minting_interface(
        &call(BOB, ALICE, 10 * ONE_NEAR),
        text("x"),
        vec![(0, text("2.0"))],
        None,
    );
    assert_eq!(refused.err(), Some(Error::Forbidden));
    assert_eq!(registry.owner_index(&text(ALICE)).len(), 0);
    assert_eq!(registry.owner_index(&text(BOB)).len(), 0);
}

#[test]
fn batch_refuses_an_unknown_category() {
    let mut registry = registry_with_categories();
    let refused = registry.minting_interface(
        &call(ALICE, ALICE, 10 * ONE_NEAR),
        text("x"),
        vec![(0, text("2.0")), (2, text("1.0"))],
        None,
    );
    assert_eq!(refused.err(), Some(Error::NotFound));
    assert_eq!(registry.owner_index(&text(ALICE)).len(), 0);
}

#[test]
fn batch_refuses_a_text_that_is_no_amount() {
    let mut registry = registry_with_categories();
    let refused = registry.minting_interface(
        &call(ALICE, ALICE, 10 * ONE_NEAR),
        text("x"),
        vec![(0, text("2.0")), (1, text("1,0"))],
        None,
    );
    assert_eq!(refused.err(), Some(Error::BadAmount));
    assert_eq!(registry.owner_index(&text(ALICE)).len(), 0);
}

#[test]
fn batch_refuses_too_little_attached() {
    let mut registry = registry_with_categories();
    let needed = 3 * ONE_NEAR + 2 * STORAGE_BUFFER;
    let refused = registry.minting_interface(
        &call(ALICE, ALICE, needed - 1),
        text("x"),
        vec![(0, text("2.0")), (1, text("1.0"))],
        None,
    );
    assert_eq!(refused.err(), Some(Error::BadAttachment));
    assert_eq!(registry.owner_index(&text(ALICE)).len(), 0);
}

#[test]
fn batch_refuses_a_total_beyond_all_that_can_be_attached() {
    let mut registry = registry_with_categories();
    let huge = "99999999999999.0";
    let refused = registry.minting_interface(
        &call(ALICE, ALICE, u128::MAX),
        text("x"),
        vec![(0, text(huge)), (1, text(huge)), (0, text(huge)), (1, text(huge))],
        None,
    );
    assert_eq!(refused.err(), Some(Error::BadAttachment));
    let amount_first = registry.minting_interface(
        &call(ALICE, ALICE, u128::MAX),
        text("x"),
        vec![(0, text(huge)), (1, text(huge)), (0, text(huge)), (1, text(huge)), (0, text("?"))],
        None,
    );
    assert_eq!(amount_first.err(), Some(Error::BadAmount));
}

#[test]
fn batch_gives_back_what_is_attached_beyond_the_requests() {
    let mut registry = registry_with_categories();
    let needed = 3 * ONE_NEAR + 2 * STORAGE_BUFFER;
    let plan = registry
        .minting_interface(
            &call(ALICE, ALICE, needed + 12345),
            text("a1"),
            vec![(0, text("2.0")), (1, text("1.0"))],
            None,
        )
        .expect("the batch is accepted");
    assert_eq!(plan.requests.len(), 2);
    assert_eq!(plan.total, needed);
    assert_eq!(plan.refund, 12345);
    assert_eq!(plan.refund_to, ALICE);
    let index = registry.owner_index(&text(ALICE));
    assert_eq!(index.get(&0), Some(&text("forest-a1")));
    assert_eq!(index.get(&1), Some(&text("ocean-a1")));
}

#[test]
fn empty_batch_gives_everything_back() {
    let mut registry = registry_with_categories();
    let plan = registry
        .minting_interface(&call(ALICE, ALICE, 500), text("a1"), Vec::new(), None)
        .expect("the batch is accepted");
    assert_eq!(plan.requests.len(), 0);
    assert_eq!(plan.total, 0);
    assert_eq!(plan.refund, 500);
}

#[test]
fn stale_index_entry_is_minted_again() {
    let mut registry = registry_with_categories();
    let first = 2 * ONE_NEAR + STORAGE_BUFFER;
    registry
        .minting_interface(&call(ALICE, ALICE, first), text("t1"), vec![(0, text("2.0"))], None)
        .expect("the first batch is accepted");
    assert!(registry.nft_token(text("forest-t1")).is_none());
    let plan = registry
        .minting_interface(&call(ALICE, ALICE, first), text("t2"), vec![(0, text("2.0"))], None)
        .expect("the second batch is accepted");
    match &plan.requests[0] {
        SubRequest::Mint { token_id, attached, .. } => {
            assert_eq!(token_id, "forest-t2");
            assert_eq!(*attached, first);
        }
        SubRequest::Update { .. } => panic!("a certificate that never came to be cannot be updated"),
    }
    assert_eq!(registry.owner_index(&text(ALICE)).get(&0), Some(&text("forest-t2")));
}

#[test]
fn update_must_carry_the_donation_exactly() {
    let mut registry = registry_with_categories();
    mint_for(&mut registry, ALICE, "forest-a", "2.0");
    let amount = 1_500_000_000_000_000_000_000_000;
    for attached in [amount - 1, amount + 1, 0] {
        let refused = registry.donate_and_update(
            &call(REGISTRY, ALICE, attached),
            text("forest-a"),
            text("1.5"),
        );
        assert_eq!(refused.err(), Some(Error::BadAttachment));
        assert_eq!(registry.nft_token(text("forest-a")).unwrap().donate_amount, "2.0");
    }
}

#[test]
fn update_refuses_an_unknown_certificate() {
    let mut registry = registry_with_categories();
    let refused = registry.donate_and_update(
        &call(REGISTRY, ALICE, ONE_NEAR),
        text("forest-a"),
        text("1.0"),
    );
    assert_eq!(refused.err(), Some(Error::NotFound));
}

#[test]
fn update_refuses_amounts_that_are_none() {
    let mut registry = registry_with_categories();
    mint_for(&mut registry, ALICE, "forest-a", "two");
    let on_bad_record = registry.donate_and_update(
        &call(REGISTRY, ALICE, ONE_NEAR),
        text("forest-a"),
        text("1.0"),
    );
    assert_eq!(on_bad_record.err(), Some(Error::BadAmount));
    assert_eq!(registry.nft_token(text("forest-a")).unwrap().donate_amount, "two");
    mint_for(&mut registry, ALICE, "forest-b", "2.0");
    let bad_donation = registry.donate_and_update(
        &call(REGISTRY, ALICE, ONE_NEAR),
        text("forest-b"),
        text("1x"),
    );
    assert_eq!(bad_donation.err(), Some(Error::BadAmount));
}

#[test]
fn update_refuses_a_sum_too_large_to_keep() {
    let mut registry = registry_with_categories();
    mint_for(&mut registry, ALICE, "forest-a", "99999999999999.0");
    let refused = registry.donate_and_update(
        &call(REGISTRY, ALICE, ONE_NEAR),
        text("forest-a"),
        text("1.0"),
    );
    assert_eq!(refused.err(), Some(Error::BadAmount));
    assert_eq!(registry.nft_token(text("forest-a")).unwrap().donate_amount, "99999999999999.0");
}

#[test]
fn updates_never_lower_the_amount() {
    let mut registry = registry_with_categories();
    mint_for(&mut registry, ALICE, "forest-a", "0.5");
    let donations: [(&str, u128, &str); 6] = [
        ("0.25", 250_000_000_000_000_000_000_000, "0.75"),
        ("0.000000000000000000000001", 1, "0.75"),
        ("0.25", 250_000_000_000_000_000_000_000, "1.0"),
        ("0.000009", 9_000_000_000_000_000_000, "1.0"),
        ("0.00001", 10_000_000_000_000_000_000, "1.00001"),
        ("41.5", 41_500_000_000_000_000_000_000_000, "42.50001"),
    ];
    let mut before = nft_contract::amount::parse_amount(&text("0.5")).unwrap();
    for (amount, yocto, shown) in donations {
        let done = registry.donate_and_update(&call(REGISTRY, ALICE, yocto), text("forest-a"), text(amount));
        assert!(done.is_ok());
        let now = registry.nft_token(text("forest-a")).unwrap().donate_amount;
        assert_eq!(now, shown);
        let value = nft_contract::amount::parse_amount(&now).unwrap();
        assert!(value >= before);
        before = value;
    }
}

#[test]
fn failed_forwarding_puts_the_old_amount_back() {
    let mut registry = registry_with_categories();
    mint_for(&mut registry, ALICE, "forest-a", "2.000001");
    let amount = 1_500_000_000_000_000_000_000_000;
    let escrow = registry
        .donate_and_update(&call(REGISTRY, ALICE, amount), text("forest-a"), text("1.5"))
        .expect("the request is accepted");
    assert_eq!(registry.nft_token(text("forest-a")).unwrap().donate_amount, "3.5");
    let told = registry.on_donate_update(
        &call(REGISTRY, ALICE, 0),
        false,
        escrow.token_id,
        escrow.old_donate_amount,
    );
    assert_eq!(told, Ok(()));
    let shown = registry.nft_token(text("forest-a")).unwrap();
    assert_eq!(shown.donate_amount, "2.000001");
    assert_eq!(shown.owner_id, ALICE);
}

#[test]
fn report_on_forwarding_is_for_the_registry_alone() {
    let mut registry = registry_with_categories();
    mint_for(&mut registry, ALICE, "forest-a", "2.0");
    let refused = registry.on_donate_update(&call(ALICE, ALICE, 0), false, text("forest-a"), text("1.0"));
    assert_eq!(refused, Err(Error::Forbidden));
    assert_eq!(registry.nft_token(text("forest-a")).unwrap().donate_amount, "2.0");
}

#[test]
fn report_of_failure_on_an_unknown_certificate_is_refused() {
    let mut registry = registry_with_categories();
    let refused = registry.on_donate_update(&call(REGISTRY, ALICE, 0), false, text("forest-a"), text("1.0"));
    assert_eq!(refused, Err(Error::NotFound));
    let fine = registry.on_donate_update(&call(REGISTRY, ALICE, 0), true, text("forest-a"), text("1.0"));
    assert_eq!(fine, Ok(()));
}

#[test]
fn update_cuts_the_sum_down_to_five_decimals() {
    let mut registry = registry_with_categories();
    mint_for(&mut registry, ALICE, "forest-a", "2.000001");
    let done = registry.donate_and_update(
        &call(REGISTRY, ALICE, 1),
        text("forest-a"),
        text("0.000000000000000000000001"),
    );
    assert_eq!(done.map(|e| e.old_donate_amount).ok(), Some(text("2.000001")));
    assert_eq!(registry.nft_token(text("forest-a")).unwrap().donate_amount, "2.0");
    mint_for(&mut registry, ALICE, "forest-b", "0.012345678");
    let done = registry.donate_and_update(
        &call(REGISTRY, ALICE, 1_000_000_000_000_000_000),
        text("forest-b"),
        text("0.000001"),
    );
    assert!(done.is_ok());
    assert_eq!(registry.nft_token(text("forest-b")).unwrap().donate_amount, "0.012346");
}
