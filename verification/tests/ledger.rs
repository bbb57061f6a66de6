use amm_pool::ledger::{LedgerError, ShareLedger};
use amm_pool::nft::ShidenGraffitiError;

#[test]
fn ledger_tracks_supply_as_sum_of_balances() {
    let mut ledger = ShareLedger::new();
    assert_eq!(ledger.total_shares(), 0);
    ledger.credit(5, 300);
    ledger.credit(6, 200);
    ledger.credit(5, 100);
    assert_eq!(ledger.balance_of(5), 400);
    assert_eq!(ledger.balance_of(6), 200);
    assert_eq!(ledger.balance_of(7), 0);
    assert_eq!(ledger.total_shares(), 600);
    ledger.debit(5, 150);
    assert_eq!(ledger.balance_of(5), 250);
    assert_eq!(ledger.total_shares(), 450);
}

#[test]
fn ledger_transfer_conserves_supply() {
    let mut ledger = ShareLedger::new();
    ledger.credit(5, 100);
    assert_eq!(
        ledger.transfer(5, 6, 101),
        Err(LedgerError::InsufficientBalance)
    );
    assert_eq!(ledger.transfer(5, 6, 40), Ok(()));
    assert_eq!(ledger.balance_of(5), 60);
    assert_eq!(ledger.balance_of(6), 40);
    assert_eq!(ledger.transfer(5, 5, 60), Ok(()));
    assert_eq!(ledger.balance_of(5), 60);
    assert_eq!(ledger.total_shares(), 100);
}

#[test]
fn graffiti_errors_name_themselves() {
    assert_eq!(
        ShidenGraffitiError::CannotMintZeroTokens.as_str(),
        "CannotMintZeroTokens"
    );
    assert_eq!(ShidenGraffitiError::CollectionIsFull.as_str(), "CollectionIsFull");
    assert_eq!(ShidenGraffitiError::BadMintValue.as_str(), "BadMintValue");
    assert_eq!(ShidenGraffitiError::WithdrawalFailed.as_str(), "WithdrawalFailed");
}
