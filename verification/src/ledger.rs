use vstd::prelude::*;

use crate::order::{compare_str, KeyOrder};
use crate::principal::{anonymous_bytes, spec_principal_from_text, PrincipalId};
use crate::text::{is_blank, nat_display, nat_text, push_text, text, trims_to_empty};

verus! {

/// The anonymous-principal checks of the ledger calls, each with its
/// message.
pub open spec fn anonymous_ledger_message() -> Seq<char> {
    "Invalid ledger canister ID: Cannot be anonymous."@
}

/// The first checks of a transfer from a pool canister to a user: the
/// amount is not zero, and neither the user nor the ledger is anonymous.
pub fn icrc1_transfer_precheck(ledger_canister: &PrincipalId, user_principal: &PrincipalId, amount: u128) -> (r: Result<
    (),
    String,
>)
    ensures
        amount == 0 ==> (r matches Err(m) && m@ == "Transfer amount must be greater than zero."@),
        amount > 0 && user_principal@ == anonymous_bytes() ==> (r matches Err(m) && m@
            == "Invalid user principal: Cannot be anonymous."@),
        amount > 0 && user_principal@ != anonymous_bytes() && ledger_canister@ == anonymous_bytes() ==> (r matches Err(
            m,
        ) && m@ == anonymous_ledger_message()),
        amount > 0 && user_principal@ != anonymous_bytes() && ledger_canister@ != anonymous_bytes() ==> r is Ok,
{
    if amount == 0 {
        return Err(text("Transfer amount must be greater than zero."));
    }
    if user_principal.is_anonymous() {
        return Err(text("Invalid user principal: Cannot be anonymous."));
    }
    if ledger_canister.is_anonymous() {
        return Err(text("Invalid ledger canister ID: Cannot be anonymous."));
    }
    Ok(())
}

/// Checks that the pool canister holds the amount: "Insufficient Funds:
/// Available <balance> but required <amount>" where it does not, the two
/// numbers as `candid::Nat` displays them.
pub fn icrc1_transfer_funds(balance: u128, amount: u128) -> (r: Result<(), String>)
    ensures
        balance < amount ==> (r matches Err(m) && m@ == "Insufficient Funds: Available "@ + nat_display(
            balance as nat,
        ) + " but required "@ + nat_display(amount as nat)),
        balance >= amount ==> r is Ok,
{
    if balance < amount {
        let mut m = text("Insufficient Funds: Available ");
        push_text(&mut m, nat_text(balance).as_str());
        push_text(&mut m, " but required ");
        push_text(&mut m, nat_text(amount).as_str());
        return Err(m);
    }
    Ok(())
}

/// What reaches the user once the ledger's fee is taken from the amount;
/// "Transfer amount <amount> is less than the transaction fee <fee>" where
/// the fee is larger.
pub fn icrc1_transfer_net_amount(amount: u128, fee: u128) -> (r: Result<u128, String>)
    ensures
        amount < fee ==> (r matches Err(m) && m@ == "Transfer amount "@ + nat_display(amount as nat)
            + " is less than the transaction fee "@ + nat_display(fee as nat)),
        amount >= fee ==> r == Ok::<u128, String>((amount - fee) as u128),
{
    if amount < fee {
        let mut m = text("Transfer amount ");
        push_text(&mut m, nat_text(amount).as_str());
        push_text(&mut m, " is less than the transaction fee ");
        push_text(&mut m, nat_text(fee).as_str());
        return Err(m);
    }
    Ok(amount - fee)
}

/// The step of a ledger or exchange-rate call that failed.
pub enum CallFailure {
    /// Reading the pool canister's balance before a transfer.
    FetchBalance,
    /// Reading the ledger's fee.
    FetchFee,
    /// The transfer itself, or its result.
    Transfer,
    /// Reading a balance for a user.
    RetrieveBalance,
    /// A deposit into a pool canister.
    Deposit,
    /// The call of `icrc2_transfer_from`.
    TransferFromCall,
    /// Storing a pool's data in its pool canister.
    StorePoolData,
    /// Adding liquidity in a pool canister.
    AddLiquidity,
    /// Stopping a canister.
    StopCanister,
    /// Deleting a canister.
    DeleteCanister,
    /// The answer of the exchange-rate canister to a rate asked for.
    ExchangeRate,
    /// The answer of the exchange-rate canister to the USD/ICP rate.
    XrcRate,
    /// A call into a pool canister that moves tokens.
    PerformSwap,
}

/// The message of a failed call: the step's words and the details.
pub open spec fn failure_message(kind: CallFailure, detail: Seq<char>) -> Seq<char> {
    match kind {
        CallFailure::FetchBalance => "Failed to fetch balance: "@ + detail,
        CallFailure::FetchFee => "Failed to fetch fee: "@ + detail,
        CallFailure::Transfer => "Transfer failed: "@ + detail,
        CallFailure::RetrieveBalance => "Failed to retrieve balance: "@ + detail,
        CallFailure::Deposit => "Failed to deposit tokens: "@ + detail,
        CallFailure::TransferFromCall => "Call to icrc2_transfer_from failed: "@ + detail,
        CallFailure::StorePoolData => "Failed to store token data: "@ + detail,
        CallFailure::AddLiquidity => "Failed to add liquidity: "@ + detail,
        CallFailure::StopCanister => "Failed to stop canister: "@ + detail,
        CallFailure::DeleteCanister => "Failed to delete canister: "@ + detail,
        CallFailure::ExchangeRate => "Exchange rate error: "@ + detail,
        CallFailure::XrcRate => "Error from XRC: "@ + detail,
        CallFailure::PerformSwap => "Failed to perform swap: "@ + detail,
    }
}

/// Writes the message of a failed call.
pub fn call_failure_message(kind: CallFailure, detail: &str) -> (r: String)
    ensures
        r@ == failure_message(kind, detail@),
{
    let mut m = match kind {
        CallFailure::FetchBalance => text("Failed to fetch balance: "),
        CallFailure::FetchFee => text("Failed to fetch fee: "),
        CallFailure::Transfer => text("Transfer failed: "),
        CallFailure::RetrieveBalance => text("Failed to retrieve balance: "),
        CallFailure::Deposit => text("Failed to deposit tokens: "),
        CallFailure::TransferFromCall => text("Call to icrc2_transfer_from failed: "),
        CallFailure::StorePoolData => text("Failed to store token data: "),
        CallFailure::AddLiquidity => text("Failed to add liquidity: "),
        CallFailure::StopCanister => text("Failed to stop canister: "),
        CallFailure::DeleteCanister => text("Failed to delete canister: "),
        CallFailure::ExchangeRate => text("Exchange rate error: "),
        CallFailure::XrcRate => text("Error from XRC: "),
        CallFailure::PerformSwap => text("Failed to perform swap: "),
    };
    push_text(&mut m, detail);
    m
}

/// Why an inter-canister call was rejected, as the Internet Computer
/// reports it.
#[derive(Clone, Copy, PartialEq, Eq, Structural, Debug)]
pub enum RejectCode {
    NoError,
    SysFatal,
    SysTransient,
    DestinationInvalid,
    CanisterReject,
    CanisterError,
    Unknown,
}

/// The name of a code, as `{:?}` writes it.
pub open spec fn reject_code_name(code: RejectCode) -> Seq<char> {
    match code {
        RejectCode::NoError => "NoError"@,
        RejectCode::SysFatal => "SysFatal"@,
        RejectCode::SysTransient => "SysTransient"@,
        RejectCode::DestinationInvalid => "DestinationInvalid"@,
        RejectCode::CanisterReject => "CanisterReject"@,
        RejectCode::CanisterError => "CanisterError"@,
        RejectCode::Unknown => "Unknown"@,
    }
}

/// Writes the name of a code.
pub fn reject_code_text(code: RejectCode) -> (r: String)
    ensures
        r@ == reject_code_name(code),
{
    match code {
        RejectCode::NoError => text("NoError"),
        RejectCode::SysFatal => text("SysFatal"),
        RejectCode::SysTransient => text("SysTransient"),
        RejectCode::DestinationInvalid => text("DestinationInvalid"),
        RejectCode::CanisterReject => text("CanisterReject"),
        RejectCode::CanisterError => text("CanisterError"),
        RejectCode::Unknown => text("Unknown"),
    }
}

/// The message of a rejected inter-canister call: the name of the code
/// alone for the first five codes, else "Unknown rejection code: <code>:
/// <message>".
pub open spec fn rejection_text(code: RejectCode, message: Seq<char>) -> Seq<char> {
    match code {
        RejectCode::CanisterError | RejectCode::Unknown => "Unknown rejection code: "@ + reject_code_name(code)
            + ": "@ + message,
        _ => reject_code_name(code),
    }
}

/// Writes the message of a rejected inter-canister call.
pub fn rejection_message(code: RejectCode, message: &str) -> (r: String)
    ensures
        r@ == rejection_text(code, message@),
{
    match code {
        RejectCode::CanisterError | RejectCode::Unknown => {
            let mut m = text("Unknown rejection code: ");
            push_text(&mut m, reject_code_text(code).as_str());
            push_text(&mut m, ": ");
            push_text(&mut m, message);
            m
        },
        _ => reject_code_text(code),
    }
}

/// The message of a rejected metadata call: "Failed to fetch metadata: ",
/// the code's name, " - " and the message.
pub fn metadata_rejection_message(code: RejectCode, message: &str) -> (r: String)
    ensures
        r@ == "Failed to fetch metadata: "@ + reject_code_name(code) + " - "@ + message@,
{
    let mut m = text("Failed to fetch metadata: ");
    push_text(&mut m, reject_code_text(code).as_str());
    push_text(&mut m, " - ");
    push_text(&mut m, message);
    m
}

/// The message of a rejected call to the exchange-rate canister for the
/// rate of `base` in `quote`.
pub fn rate_rejection_message(base: &str, quote: &str, code: RejectCode, message: &str) -> (r: String)
    ensures
        r@ == "Could not get "@ + base@ + "/"@ + quote@ + " rate. Rejection code: "@ + reject_code_name(code)
            + ", Message: "@ + message@,
{
    let mut m = text("Could not get ");
    push_text(&mut m, base);
    push_text(&mut m, "/");
    push_text(&mut m, quote);
    push_text(&mut m, " rate. Rejection code: ");
    push_text(&mut m, reject_code_text(code).as_str());
    push_text(&mut m, ", Message: ");
    push_text(&mut m, message);
    m
}

/// The message of a rejected call to the exchange-rate canister for the
/// USD/ICP rate.
pub fn usd_icp_rejection_message(code: RejectCode, message: &str) -> (r: String)
    ensures
        r@ == "Could not get USD/ICP Rate. Rejection code: "@ + reject_code_name(code) + ", Message: "@
            + message@,
{
    let mut m = text("Could not get USD/ICP Rate. Rejection code: ");
    push_text(&mut m, reject_code_text(code).as_str());
    push_text(&mut m, ", Message: ");
    push_text(&mut m, message);
    m
}

/// Reads the principal of a canister to remove; "Invalid canister ID"
/// where the text is not a principal.
pub fn remove_canister_target(canister_id: &str) -> (r: Result<PrincipalId, String>)
    ensures
        spec_principal_from_text(canister_id@) matches Some(b) ==> (r matches Ok(p) && p@ == b),
        spec_principal_from_text(canister_id@) is None ==> (r matches Err(m) && m@ == "Invalid canister ID"@),
{
    match PrincipalId::from_text(canister_id) {
        Some(p) => Ok(p),
        None => Err(text("Invalid canister ID")),
    }
}

/// The checks before reading a balance: neither the ledger nor the account
/// is anonymous.
pub fn icrc_get_balance_precheck(ledger_canister_id: &PrincipalId, id: &PrincipalId) -> (r: Result<(), String>)
    ensures
        ledger_canister_id@ == anonymous_bytes() ==> (r matches Err(m) && m@ == anonymous_ledger_message()),
        ledger_canister_id@ != anonymous_bytes() && id@ == anonymous_bytes() ==> (r matches Err(m) && m@
            == "Invalid account ID: Cannot be anonymous."@),
        ledger_canister_id@ != anonymous_bytes() && id@ != anonymous_bytes() ==> r is Ok,
{
    if ledger_canister_id.is_anonymous() {
        return Err(text("Invalid ledger canister ID: Cannot be anonymous."));
    }
    if id.is_anonymous() {
        return Err(text("Invalid account ID: Cannot be anonymous."));
    }
    Ok(())
}

/// The checks before a deposit into a pool canister: the amount is not
/// zero, and neither the ledger nor the target canister is anonymous.
pub fn deposit_tokens_precheck(amount: u128, ledger_canister_id: &PrincipalId, target_canister_id: &PrincipalId) -> (r:
    Result<(), String>)
    ensures
        amount == 0 ==> (r matches Err(m) && m@ == "Deposit amount must be greater than zero."@),
        amount > 0 && ledger_canister_id@ == anonymous_bytes() ==> (r matches Err(m) && m@
            == anonymous_ledger_message()),
        amount > 0 && ledger_canister_id@ != anonymous_bytes() && target_canister_id@ == anonymous_bytes() ==> (r matches Err(
            m,
        ) && m@ == "Invalid target canister ID: Cannot be anonymous."@),
        amount > 0 && ledger_canister_id@ != anonymous_bytes() && target_canister_id@ != anonymous_bytes() ==> r is Ok,
{
    if amount == 0 {
        return Err(text("Deposit amount must be greater than zero."));
    }
    if ledger_canister_id.is_anonymous() {
        return Err(text("Invalid ledger canister ID: Cannot be anonymous."));
    }
    if target_canister_id.is_anonymous() {
        return Err(text("Invalid target canister ID: Cannot be anonymous."));
    }
    Ok(())
}

/// The checks before `icrc2_transfer_from`: the amount is not zero, and
/// none of the ledger, the sender and the recipient is anonymous.
pub fn transfer_from_precheck(
    ledger_canister_id: &PrincipalId,
    from: &PrincipalId,
    to: &PrincipalId,
    amount: u128,
) -> (r: Result<(), String>)
    ensures
        amount == 0 ==> (r matches Err(m) && m@ == "Transfer amount must be greater than zero."@),
        amount > 0 && ledger_canister_id@ == anonymous_bytes() ==> (r matches Err(m) && m@
            == anonymous_ledger_message()),
        amount > 0 && ledger_canister_id@ != anonymous_bytes() && from@ == anonymous_bytes() ==> (r matches Err(m)
            && m@ == "Invalid sender principal: Cannot be anonymous."@),
        amount > 0 && ledger_canister_id@ != anonymous_bytes() && from@ != anonymous_bytes() && to@
            == anonymous_bytes() ==> (r matches Err(m) && m@ == "Invalid recipient principal: Cannot be anonymous."@),
        amount > 0 && ledger_canister_id@ != anonymous_bytes() && from@ != anonymous_bytes() && to@
            != anonymous_bytes() ==> r is Ok,
{
    if amount == 0 {
        return Err(text("Transfer amount must be greater than zero."));
    }
    if ledger_canister_id.is_anonymous() {
        return Err(text("Invalid ledger canister ID: Cannot be anonymous."));
    }
    if from.is_anonymous() {
        return Err(text("Invalid sender principal: Cannot be anonymous."));
    }
    if to.is_anonymous() {
        return Err(text("Invalid recipient principal: Cannot be anonymous."));
    }
    Ok(())
}

/// The checks before asking for an exchange rate: neither symbol is blank.
pub fn exchange_rate_precheck(base_asset: &str, quote_asset: &str) -> (r: Result<(), String>)
    ensures
        is_blank(base_asset@) ==> (r matches Err(m) && m@ == "Base asset symbol cannot be empty."@),
        !is_blank(base_asset@) && is_blank(quote_asset@) ==> (r matches Err(m) && m@
            == "Quote asset symbol cannot be empty."@),
        !is_blank(base_asset@) && !is_blank(quote_asset@) ==> r is Ok,
{
    if trims_to_empty(base_asset) {
        return Err(text("Base asset symbol cannot be empty."));
    }
    if trims_to_empty(quote_asset) {
        return Err(text("Quote asset symbol cannot be empty."));
    }
    Ok(())
}

/// The amount in the ledger's smallest unit: whole tokens times 10^8.
/// Amounts whose product does not fit in 64 bits are excluded.
pub fn ledger_units(amount: u64) -> (r: u64)
    requires
        amount * 100_000_000 <= u64::MAX,
    ensures
        r == amount * 100_000_000,
{
    amount * 100_000_000
}

/// A value of a ledger's metadata.
#[derive(Debug)]
pub enum MetadataValue {
    Nat(u128),
    Int(i128),
    Text(String),
    Blob(Vec<u8>),
}

/// The key under which a ledger gives its number of decimals.
pub open spec fn decimals_key() -> Seq<char> {
    "icrc1:decimals"@
}

/// The number of decimals in a ledger's metadata: the value of the first
/// entry whose key is "icrc1:decimals", which must be a number; "Decimals
/// not found in metadata." where there is no such entry.
pub open spec fn metadata_decimals(keys: Seq<Seq<char>>, values: Seq<MetadataValue>) -> Result<u128, Seq<char>>
    decreases keys.len(),
{
    if keys.len() == 0 || values.len() == 0 {
        Err("Decimals not found in metadata."@)
    } else if keys[0] == decimals_key() {
        match values[0] {
            MetadataValue::Nat(d) => Ok(d),
            _ => Err("Invalid type for decimals, expected Nat."@),
        }
    } else {
        metadata_decimals(keys.drop_first(), values.drop_first())
    }
}

/// The keys of the metadata entries.
pub open spec fn metadata_keys(m: Seq<(String, MetadataValue)>) -> Seq<Seq<char>> {
    m.map_values(|e: (String, MetadataValue)| e.0@)
}

/// The values of the metadata entries.
pub open spec fn metadata_values(m: Seq<(String, MetadataValue)>) -> Seq<MetadataValue> {
    m.map_values(|e: (String, MetadataValue)| e.1)
}

/// The result with its error written as a string.
pub open spec fn text_result(r: Result<u128, String>) -> Result<u128, Seq<char>> {
    match r {
        Ok(d) => Ok(d),
        Err(m) => Err(m@),
    }
}

/// Finds the number of decimals in a ledger's metadata (see
/// `metadata_decimals`).
pub fn decimals_from_metadata(metadata: &Vec<(String, MetadataValue)>) -> (r: Result<u128, String>)
    ensures
        text_result(r) == metadata_decimals(metadata_keys(metadata@), metadata_values(metadata@)),
{
    let ghost ks = metadata_keys(metadata@);
    let ghost vs = metadata_values(metadata@);
    let n = metadata.len();
    let key = "icrc1:decimals";
    assert(ks.skip(0) =~= ks);
    assert(vs.skip(0) =~= vs);
    for i in 0..n
        invariant
            n == metadata@.len(),
            ks == metadata_keys(metadata@),
            vs == metadata_values(metadata@),
            key@ == decimals_key(),
            metadata_decimals(ks.skip(i as int), vs.skip(i as int)) == metadata_decimals(ks, vs),
    {
        let entry = &metadata[i];
        assert(ks.skip(i as int)[0] == entry.0@);
        assert(vs.skip(i as int)[0] == entry.1);
        if compare_str(entry.0.as_str(), key) == KeyOrder::Equal {
            return match &entry.1 {
                MetadataValue::Nat(d) => Ok(*d),
                _ => Err(text("Invalid type for decimals, expected Nat.")),
            };
        }
        assert(ks.skip(i as int).drop_first() =~= ks.skip(i + 1));
        assert(vs.skip(i as int).drop_first() =~= vs.skip(i + 1));
    }
    assert(ks.skip(n as int).len() == 0);
    Err(text("Decimals not found in metadata."))
}

/// The checks before reading a ledger's metadata: the ledger is not
/// anonymous.
pub fn get_decimals_precheck(target_canister_id: &PrincipalId) -> (r: Result<(), String>)
    ensures
        target_canister_id@ == anonymous_bytes() ==> (r matches Err(m) && m@
            == "Invalid target canister ID: Cannot be anonymous."@),
        target_canister_id@ != anonymous_bytes() ==> r is Ok,
{
    if target_canister_id.is_anonymous() {
        return Err(text("Invalid target canister ID: Cannot be anonymous."));
    }
    Ok(())
}

/// The errors of creating, funding and installing a pool canister.
#[derive(Debug)]
pub enum CreateCanisterError {
    CreateError(String),
    DepositError(String),
    InstallError(String),
}

/// The text of an error, as its `Display` writes it.
pub open spec fn create_error_text(e: CreateCanisterError) -> Seq<char> {
    match e {
        CreateCanisterError::CreateError(m) => "Canister creation failed: "@ + m@,
        CreateCanisterError::DepositError(m) => "Deposit cycles failed: "@ + m@,
        CreateCanisterError::InstallError(m) => "Install code failed: "@ + m@,
    }
}

impl CreateCanisterError {
    /// The text of the error (what its `Display` shows).
    pub fn describe(&self) -> (r: String)
        ensures
            r@ == create_error_text(*self),
    {
        let (mut m, detail) = match self {
            CreateCanisterError::CreateError(d) => (text("Canister creation failed: "), d),
            CreateCanisterError::DepositError(d) => (text("Deposit cycles failed: "), d),
            CreateCanisterError::InstallError(d) => (text("Install code failed: "), d),
        };
        push_text(&mut m, detail.as_str());
        m
    }
}

/// A standard that the canister supports: its name and the address of its
/// text.
pub struct SupportedStandard {
    pub url: String,
    pub name: String,
}

/// The standards the canister supports: ICRC-10 and ICRC-28, with the
/// addresses of their texts.
pub fn icrc10_supported_standards() -> (r: Vec<SupportedStandard>)
    ensures
        r@.len() == 2,
        r@[0].url@ == "https://github.com/dfinity/ICRC/blob/main/ICRCs/ICRC-10/ICRC-10.md"@,
        r@[0].name@ == "ICRC-10"@,
        r@[1].url@ == "https://github.com/dfinity/wg-identity-authentication/blob/main/topics/icrc_28_trusted_origins.md"@,
        r@[1].name@ == "ICRC-28"@,
{
    let mut v: Vec<SupportedStandard> = Vec::new();
    v.push(
        SupportedStandard {
            url: text("https://github.com/dfinity/ICRC/blob/main/ICRCs/ICRC-10/ICRC-10.md"),
            name: text("ICRC-10"),
        },
    );
    v.push(
        SupportedStandard {
            url: text(
                "https://github.com/dfinity/wg-identity-authentication/blob/main/topics/icrc_28_trusted_origins.md",
            ),
            name: text("ICRC-28"),
        },
    );
    v
}

/// The origins that users may authenticate to the app from.
pub struct Icrc28TrustedOriginsResponse {
    pub trusted_origins: Vec<String>,
}

/// The trusted origins of the app, in this order.
pub open spec fn trusted_origins_list() -> Seq<Seq<char>> {
    seq![
        "https://ajzka-lyaaa-aaaak-ak5rq-cai.icp0.io"@,
        "http://localhost:3000"@,
        "http://by6od-j4aaa-aaaaa-qaadq-cai.localhost:4943"@,
        "http://127.0.0.1:4943/?canisterId=bd3sg-teaaa-aaaaa-qaaba-cai"@,
        "http://127.0.0.1:4943"@,
        "http://localhost:4200"@,
    ]
}

/// Every base address that users authenticate to the app from.
pub fn icrc28_trusted_origins() -> (r: Icrc28TrustedOriginsResponse)
    ensures
        r.trusted_origins@.map_values(|s: String| s@) == trusted_origins_list(),
{
    let mut v: Vec<String> = Vec::new();
    v.push(text("https://ajzka-lyaaa-aaaak-ak5rq-cai.icp0.io"));
    v.push(text("http://localhost:3000"));
    v.push(text("http://by6od-j4aaa-aaaaa-qaadq-cai.localhost:4943"));
    v.push(text("http://127.0.0.1:4943/?canisterId=bd3sg-teaaa-aaaaa-qaaba-cai"));
    v.push(text("http://127.0.0.1:4943"));
    v.push(text("http://localhost:4200"));
    assert(v@.map_values(|s: String| s@) =~= trusted_origins_list());
    Icrc28TrustedOriginsResponse { trusted_origins: v }
}

} // verus!
