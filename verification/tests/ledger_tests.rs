use valueswap::ledger::{
    call_failure_message, decimals_from_metadata, deposit_tokens_precheck, exchange_rate_precheck,
    get_decimals_precheck, icrc10_supported_standards, icrc1_transfer_funds, icrc1_transfer_net_amount,
    icrc1_transfer_precheck, icrc28_trusted_origins, icrc_get_balance_precheck, ledger_units,
    metadata_rejection_message, rate_rejection_message, rejection_message, remove_canister_target,
    transfer_from_precheck, usd_icp_rejection_message, CallFailure, CreateCanisterError, MetadataValue, RejectCode,
};
use valueswap::principal::PrincipalId;

fn p(b: u8) -> PrincipalId {
    PrincipalId::from_slice(&[b]).unwrap()
}

#[test]
fn icrc1_transfer_precheck_messages() {
    let anon = PrincipalId::anonymous();
    assert_eq!(
        icrc1_transfer_precheck(&p(1), &p(2), 0),
        Err("Transfer amount must be greater than zero.".to_string())
    );
    assert_eq!(
        icrc1_transfer_precheck(&p(1), &anon, 5),
        Err("Invalid user principal: Cannot be anonymous.".to_string())
    );
    assert_eq!(
        icrc1_transfer_precheck(&anon, &p(2), 5),
        Err("Invalid ledger canister ID: Cannot be anonymous.".to_string())
    );
    assert_eq!(icrc1_transfer_precheck(&p(1), &p(2), 5), Ok(()));
}

#[test]
fn icrc1_transfer_funds_and_fee() {
    assert_eq!(icrc1_transfer_funds(2000, 2000), Ok(()));
    assert_eq!(
        icrc1_transfer_funds(1000, 2000),
        Err("Insufficient Funds: Available 1_000 but required 2_000".to_string())
    );
    assert_eq!(
        icrc1_transfer_funds(999_999, 1_234_567),
        Err("Insufficient Funds: Available 999_999 but required 1_234_567".to_string())
    );
    assert_eq!(icrc1_transfer_net_amount(100, 10), Ok(90));
    assert_eq!(
        icrc1_transfer_net_amount(0, 5),
        Err("Transfer amount 0 is less than the transaction fee 5".to_string())
    );
    assert_eq!(icrc1_transfer_net_amount(10, 10), Ok(0));
    assert_eq!(
        icrc1_transfer_net_amount(5, 10_000),
        Err("Transfer amount 5 is less than the transaction fee 10_000".to_string())
    );
}

#[test]
fn call_failure_messages() {
    assert_eq!(call_failure_message(CallFailure::FetchBalance, "x"), "Failed to fetch balance: x");
    assert_eq!(call_failure_message(CallFailure::FetchFee, "x"), "Failed to fetch fee: x");
    assert_eq!(call_failure_message(CallFailure::Transfer, "TooOld"), "Transfer failed: TooOld");
    assert_eq!(call_failure_message(CallFailure::RetrieveBalance, "x"), "Failed to retrieve balance: x");
    assert_eq!(call_failure_message(CallFailure::Deposit, "x"), "Failed to deposit tokens: x");
    assert_eq!(call_failure_message(CallFailure::TransferFromCall, "x"), "Call to icrc2_transfer_from failed: x");
    assert_eq!(call_failure_message(CallFailure::StorePoolData, "x"), "Failed to store token data: x");
    assert_eq!(call_failure_message(CallFailure::AddLiquidity, "x"), "Failed to add liquidity: x");
    assert_eq!(call_failure_message(CallFailure::StopCanister, "x"), "Failed to stop canister: x");
    assert_eq!(call_failure_message(CallFailure::DeleteCanister, "x"), "Failed to delete canister: x");
    assert_eq!(call_failure_message(CallFailure::ExchangeRate, "x"), "Exchange rate error: x");
    assert_eq!(call_failure_message(CallFailure::XrcRate, "x"), "Error from XRC: x");
    assert_eq!(call_failure_message(CallFailure::PerformSwap, "x"), "Failed to perform swap: x");
}

#[test]
fn rejection_messages() {
    assert_eq!(rejection_message(RejectCode::NoError, "m"), "NoError");
    assert_eq!(rejection_message(RejectCode::SysFatal, "m"), "SysFatal");
    assert_eq!(rejection_message(RejectCode::SysTransient, "m"), "SysTransient");
    assert_eq!(rejection_message(RejectCode::DestinationInvalid, "m"), "DestinationInvalid");
    assert_eq!(rejection_message(RejectCode::CanisterReject, "m"), "CanisterReject");
    assert_eq!(rejection_message(RejectCode::CanisterError, "m"), "Unknown rejection code: CanisterError: m");
    assert_eq!(rejection_message(RejectCode::Unknown, "m"), "Unknown rejection code: Unknown: m");
    assert_eq!(metadata_rejection_message(RejectCode::SysFatal, "m"), "Failed to fetch metadata: SysFatal - m");
    assert_eq!(
        rate_rejection_message("BTC", "ICP", RejectCode::CanisterReject, "m"),
        "Could not get BTC/ICP rate. Rejection code: CanisterReject, Message: m"
    );
    assert_eq!(
        usd_icp_rejection_message(RejectCode::Unknown, "m"),
        "Could not get USD/ICP Rate. Rejection code: Unknown, Message: m"
    );
}

#[test]
fn balance_deposit_and_transfer_from_prechecks() {
    let anon = PrincipalId::anonymous();
    assert_eq!(
        icrc_get_balance_precheck(&anon, &p(1)),
        Err("Invalid ledger canister ID: Cannot be anonymous.".to_string())
    );
    assert_eq!(icrc_get_balance_precheck(&p(1), &anon), Err("Invalid account ID: Cannot be anonymous.".to_string()));
    assert_eq!(icrc_get_balance_precheck(&p(1), &p(2)), Ok(()));
    assert_eq!(deposit_tokens_precheck(0, &p(1), &p(2)), Err("Deposit amount must be greater than zero.".to_string()));
    assert_eq!(
        deposit_tokens_precheck(1, &p(1), &anon),
        Err("Invalid target canister ID: Cannot be anonymous.".to_string())
    );
    assert_eq!(deposit_tokens_precheck(1, &p(1), &p(2)), Ok(()));
    assert_eq!(
        transfer_from_precheck(&p(1), &anon, &p(2), 1),
        Err("Invalid sender principal: Cannot be anonymous.".to_string())
    );
    assert_eq!(
        transfer_from_precheck(&p(1), &p(3), &anon, 1),
        Err("Invalid recipient principal: Cannot be anonymous.".to_string())
    );
    assert_eq!(transfer_from_precheck(&p(1), &p(3), &p(2), 1), Ok(()));
    assert_eq!(get_decimals_precheck(&anon), Err("Invalid target canister ID: Cannot be anonymous.".to_string()));
    assert_eq!(get_decimals_precheck(&p(1)), Ok(()));
}

#[test]
fn exchange_rate_precheck_messages() {
    assert_eq!(exchange_rate_precheck(" ", "ICP"), Err("Base asset symbol cannot be empty.".to_string()));
    assert_eq!(exchange_rate_precheck("BTC", ""), Err("Quote asset symbol cannot be empty.".to_string()));
    assert_eq!(exchange_rate_precheck("BTC", "ICP"), Ok(()));
}

#[test]
fn decimals_are_read_from_the_first_matching_entry() {
    let m = vec![
        ("icrc1:name".to_string(), MetadataValue::Text("ckBTC".to_string())),
        ("icrc1:decimals".to_string(), MetadataValue::Nat(8)),
        ("icrc1:decimals".to_string(), MetadataValue::Nat(9)),
    ];
    assert_eq!(decimals_from_metadata(&m), Ok(8));
    let wrong = vec![("icrc1:decimals".to_string(), MetadataValue::Int(8))];
    assert_eq!(decimals_from_metadata(&wrong), Err("Invalid type for decimals, expected Nat.".to_string()));
    let none = vec![("icrc1:fee".to_string(), MetadataValue::Nat(10)), ("x".to_string(), MetadataValue::Blob(vec![1]))];
    assert_eq!(decimals_from_metadata(&none), Err("Decimals not found in metadata.".to_string()));
    assert_eq!(decimals_from_metadata(&vec![]), Err("Decimals not found in metadata.".to_string()));
}

#[test]
fn ledger_units_scale_by_ten_to_the_eight() {
    assert_eq!(ledger_units(5), 500_000_000);
    assert_eq!(ledger_units(0), 0);
}

#[test]
fn remove_canister_reads_the_principal() {
    assert!(remove_canister_target("aaaaa-aa").unwrap().as_bytes().is_empty());
    assert_eq!(remove_canister_target("bad").err(), Some("Invalid canister ID".to_string()));
}

#[test]
fn create_canister_error_texts() {
    assert_eq!(CreateCanisterError::CreateError("x".to_string()).describe(), "Canister creation failed: x");
    assert_eq!(CreateCanisterError::DepositError("x".to_string()).describe(), "Deposit cycles failed: x");
    assert_eq!(CreateCanisterError::InstallError("x".to_string()).describe(), "Install code failed: x");
}

#[test]
fn supported_standards_and_trusted_origins() {
    let s = icrc10_supported_standards();
    assert_eq!(s.len(), 2);
    assert_eq!(s[0].name, "ICRC-10");
    assert_eq!(s[0].url, "https://github.com/dfinity/ICRC/blob/main/ICRCs/ICRC-10/ICRC-10.md");
    assert_eq!(s[1].name, "ICRC-28");
    let o = icrc28_trusted_origins();
    assert_eq!(o.trusted_origins.len(), 6);
    assert_eq!(o.trusted_origins[0], "https://ajzka-lyaaa-aaaak-ak5rq-cai.icp0.io");
    assert_eq!(o.trusted_origins[5], "http://localhost:4200");
}
