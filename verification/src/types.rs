use vstd::prelude::*;

use crate::principal::PrincipalId;
use crate::order::MapKey;
use crate::text::{is_blank, text, trims_to_empty, push_text};

verus! {

/// One token of a pool: its name, the amount deposited, its weight and
/// value, the ledger canister that holds it and an image.
pub struct CreatePoolParams {
    pub token_name: String,
    pub balance: u128,
    pub weight: u128,
    pub value: u128,
    pub ledger_canister_id: PrincipalId,
    pub image: String,
}

/// The mathematical content of a `CreatePoolParams`.
pub struct TokenView {
    pub name: Seq<char>,
    pub balance: u128,
    pub weight: u128,
    pub value: u128,
    pub ledger: Seq<u8>,
    pub image: Seq<char>,
}

impl View for CreatePoolParams {
    type V = TokenView;

    open spec fn view(&self) -> TokenView {
        TokenView {
            name: self.token_name@,
            balance: self.balance,
            weight: self.weight,
            value: self.value,
            ledger: self.ledger_canister_id@,
            image: self.image@,
        }
    }
}

impl CreatePoolParams {
    /// A copy of the token.
    pub fn duplicate(&self) -> (r: CreatePoolParams)
        ensures
            r@ == self@,
    {
        CreatePoolParams {
            token_name: self.token_name.clone(),
            balance: self.balance,
            weight: self.weight,
            value: self.value,
            ledger_canister_id: self.ledger_canister_id.clone_key(),
            image: self.image.clone(),
        }
    }
}

/// The tokens of a pool and its swap fee.
#[allow(non_camel_case_types)]
pub struct Pool_Data {
    pub pool_data: Vec<CreatePoolParams>,
    pub swap_fee: u128,
}

/// The mathematical content of a `Pool_Data`.
pub struct PoolView {
    pub tokens: Seq<TokenView>,
    pub swap_fee: u128,
}

impl View for Pool_Data {
    type V = PoolView;

    open spec fn view(&self) -> PoolView {
        PoolView { tokens: self.pool_data@.map_values(|t: CreatePoolParams| t@), swap_fee: self.swap_fee }
    }
}

/// Why a token is refused: 0 where it is accepted, 1 for its name, 2 for a
/// zero weight or value. (`validate` also refuses a ledger whose textual
/// form is empty, but that text always holds a checksum, so no ledger is
/// ever refused.)
pub open spec fn token_defect(t: TokenView) -> u8 {
    if is_blank(t.name) || t.name.len() > 100 {
        1
    } else if t.weight == 0 || t.value == 0 {
        2
    } else {
        0
    }
}

/// The message that `validate` gives for a refused token.
pub open spec fn defect_message(d: u8) -> Seq<char> {
    if d == 1 {
        "Token name cannot be empty or exceed 100 characters"@
    } else {
        "Weight and value must be greater than zero"@
    }
}

/// The names of the tokens, joined with nothing between them: the name of
/// the pool.
pub open spec fn joined_names(tokens: Seq<TokenView>) -> Seq<char>
    decreases tokens.len(),
{
    if tokens.len() == 0 {
        Seq::empty()
    } else {
        joined_names(tokens.drop_last()) + tokens.last().name
    }
}

/// The outcome of validating a pool: `None` where it is accepted, else the
/// error.
pub open spec fn pool_defect(p: PoolView) -> Option<CustomErrorView> {
    if p.tokens.len() == 0 {
        Some(CustomErrorView::PoolDataEmpty)
    } else if exists|i: int| 0 <= i < p.tokens.len() && token_defect(#[trigger] p.tokens[i]) != 0 {
        let i = choose|i: int|
            0 <= i < p.tokens.len() && token_defect(#[trigger] p.tokens[i]) != 0 && forall|j: int|
                0 <= j < i ==> token_defect(#[trigger] p.tokens[j]) == 0;
        Some(CustomErrorView::InvalidInput(defect_message(token_defect(p.tokens[i]))))
    } else {
        None
    }
}

/// There is always a first refused token where some token is refused.
pub proof fn lemma_first_defect(tokens: Seq<TokenView>, i: int)
    requires
        0 <= i < tokens.len(),
        token_defect(tokens[i]) != 0,
    ensures
        exists|k: int|
            0 <= k < tokens.len() && token_defect(#[trigger] tokens[k]) != 0 && forall|j: int|
                0 <= j < k ==> token_defect(#[trigger] tokens[j]) == 0,
    decreases i,
{
    if exists|j: int| 0 <= j < i && token_defect(#[trigger] tokens[j]) != 0 {
        let j = choose|j: int| 0 <= j < i && token_defect(#[trigger] tokens[j]) != 0;
        lemma_first_defect(tokens, j);
    }
}

impl Pool_Data {
    /// A copy of the pool.
    pub fn duplicate(&self) -> (r: Pool_Data)
        ensures
            r@ == self@,
    {
        let mut out: Vec<CreatePoolParams> = Vec::new();
        let n = self.pool_data.len();
        for i in 0..n
            invariant
                n == self.pool_data@.len(),
                out@.len() == i,
                forall|j: int| 0 <= j < i ==> (#[trigger] out@[j])@ == self.pool_data@[j]@,
        {
            out.push(self.pool_data[i].duplicate());
        }
        let r = Pool_Data { pool_data: out, swap_fee: self.swap_fee };
        assert(r@.tokens =~= self@.tokens);
        r
    }

    /// The name of the pool: the names of its tokens joined together.
    pub fn pool_name(&self) -> (r: String)
        ensures
            r@ == joined_names(self@.tokens),
    {
        let mut name = String::new();
        let n = self.pool_data.len();
        for i in 0..n
            invariant
                n == self.pool_data@.len(),
                name@ == joined_names(self@.tokens.take(i as int)),
        {
            proof {
                assert(self@.tokens.take(i + 1).drop_last() =~= self@.tokens.take(i as int));
            }
            push_text(&mut name, self.pool_data[i].token_name.as_str());
        }
        assert(self@.tokens.take(n as int) =~= self@.tokens);
        name
    }

    /// Checks the pool: it has a token, and every token has a name that is
    /// not blank and at most 100 characters long, a weight and a value above
    /// zero, and a ledger whose textual form is not empty (which it never
    /// is).
    pub fn validate(&self) -> (r: Result<(), CustomError>)
        ensures
            r is Ok <==> pool_defect(self@) is None,
            r matches Err(e) ==> pool_defect(self@) == Some(e@),
    {
        let n = self.pool_data.len();
        if n == 0 {
            return Err(CustomError::PoolDataEmpty);
        }
        let ghost ts = self@.tokens;
        for i in 0..n
            invariant
                n == self.pool_data@.len(),
                ts == self@.tokens,
                forall|j: int| 0 <= j < i ==> token_defect(#[trigger] ts[j]) == 0,
        {
            let pool = &self.pool_data[i];
            let ghost d = token_defect(ts[i as int]);
            assert(ts[i as int] == pool@);
            let mut defect: u8 = 0;
            if trims_to_empty(pool.token_name.as_str()) || pool.token_name.as_str().unicode_len() > 100 {
                defect = 1;
            } else if pool.weight == 0 || pool.value == 0 {
                defect = 2;
            } else {
                let ledger_text = pool.ledger_canister_id.to_text();
                if ledger_text.as_str().is_empty() {
                    defect = 3;
                }
            }
            assert(defect == d);
            if defect != 0 {
                proof {
                    lemma_first_defect(ts, i as int);
                    let k = choose|k: int|
                        0 <= k < ts.len() && token_defect(#[trigger] ts[k]) != 0 && forall|j: int|
                            0 <= j < k ==> token_defect(#[trigger] ts[j]) == 0;
                    if k < i {
                    } else if k > i {
                        assert(token_defect(ts[i as int]) == 0);
                    }
                    assert(k == i);
                }
                let msg = if defect == 1 {
                    text("Token name cannot be empty or exceed 100 characters")
                } else if defect == 2 {
                    text("Weight and value must be greater than zero")
                } else {
                    text("Ledger canister ID cannot be empty")
                };
                return Err(CustomError::InvalidInput(msg));
            }
        }
        Ok(())
    }
}

/// The errors of the pool factory and the vault.
#[derive(Debug, PartialEq, Eq)]
pub enum CustomError {
    PoolDataEmpty,
    AnotherOperationInProgress(String),
    TokenDepositFailed,
    CanisterCreationFailed(String),
    LockAcquisitionFailed,
    StringConversionFailed(String),
    UnableToStorePoolData(String),
    UnableToTransferLP(String),
    NoCanisterIDFound,
    SwappingFailed(String),
    InvalidInput(String),
    OperationFailed(String),
    UnableToRollbackLP(String),
    InvalidSwapParams(String),
    VaultEmpty(String),
}

/// The mathematical content of a `CustomError`.
pub enum CustomErrorView {
    PoolDataEmpty,
    AnotherOperationInProgress(Seq<char>),
    TokenDepositFailed,
    CanisterCreationFailed(Seq<char>),
    LockAcquisitionFailed,
    StringConversionFailed(Seq<char>),
    UnableToStorePoolData(Seq<char>),
    UnableToTransferLP(Seq<char>),
    NoCanisterIDFound,
    SwappingFailed(Seq<char>),
    InvalidInput(Seq<char>),
    OperationFailed(Seq<char>),
    UnableToRollbackLP(Seq<char>),
    InvalidSwapParams(Seq<char>),
    VaultEmpty(Seq<char>),
}

impl View for CustomError {
    type V = CustomErrorView;

    open spec fn view(&self) -> CustomErrorView {
        match self {
            CustomError::PoolDataEmpty => CustomErrorView::PoolDataEmpty,
            CustomError::AnotherOperationInProgress(s) => CustomErrorView::AnotherOperationInProgress(s@),
            CustomError::TokenDepositFailed => CustomErrorView::TokenDepositFailed,
            CustomError::CanisterCreationFailed(s) => CustomErrorView::CanisterCreationFailed(s@),
            CustomError::LockAcquisitionFailed => CustomErrorView::LockAcquisitionFailed,
            CustomError::StringConversionFailed(s) => CustomErrorView::StringConversionFailed(s@),
            CustomError::UnableToStorePoolData(s) => CustomErrorView::UnableToStorePoolData(s@),
            CustomError::UnableToTransferLP(s) => CustomErrorView::UnableToTransferLP(s@),
            CustomError::NoCanisterIDFound => CustomErrorView::NoCanisterIDFound,
            CustomError::SwappingFailed(s) => CustomErrorView::SwappingFailed(s@),
            CustomError::InvalidInput(s) => CustomErrorView::InvalidInput(s@),
            CustomError::OperationFailed(s) => CustomErrorView::OperationFailed(s@),
            CustomError::UnableToRollbackLP(s) => CustomErrorView::UnableToRollbackLP(s@),
            CustomError::InvalidSwapParams(s) => CustomErrorView::InvalidSwapParams(s@),
            CustomError::VaultEmpty(s) => CustomErrorView::VaultEmpty(s@),
        }
    }
}

} // verus!

verus! {

/// How `{:?}` writes an error that `validate` returns (its message holds no
/// character that `Debug` escapes).
pub open spec fn validation_error_debug(e: CustomErrorView) -> Seq<char> {
    match e {
        CustomErrorView::InvalidInput(m) => "InvalidInput(\""@ + m + "\")"@,
        _ => "PoolDataEmpty"@,
    }
}

/// Writes an error that `validate` returns as `{:?}` does.
pub fn validation_error_text(e: &CustomError) -> (r: String)
    requires
        e@ is PoolDataEmpty || e@ is InvalidInput,
    ensures
        r@ == validation_error_debug(e@),
{
    match e {
        CustomError::InvalidInput(m) => {
            let mut s = text("InvalidInput(\"");
            push_text(&mut s, m.as_str());
            push_text(&mut s, "\")");
            s
        },
        _ => text("PoolDataEmpty"),
    }
}

/// The message for a pool that `validate` refuses: "Invalid pool data: "
/// and the error as `{:?}` writes it.
pub open spec fn invalid_pool_message(p: PoolView) -> Seq<char> {
    "Invalid pool data: "@ + validation_error_debug(pool_defect(p)->0)
}

/// Validates the pool, with the error written as a message.
pub fn validate_with_message(params: &Pool_Data) -> (r: Result<(), String>)
    ensures
        r is Ok <==> pool_defect(params@) is None,
        r matches Err(m) ==> m@ == invalid_pool_message(params@),
{
    match params.validate() {
        Ok(()) => Ok(()),
        Err(e) => {
            let mut s = text("Invalid pool data: ");
            push_text(&mut s, validation_error_text(&e).as_str());
            Err(s)
        },
    }
}

} // verus!

verus! {

/// A swap: `token_amount` of the token named `token1_name` (held by the
/// ledger `ledger_canister_id1`) for the token named `token2_name` (held by
/// `ledger_canister_id2`).
pub struct SwapParams {
    pub token1_name: String,
    pub token_amount: u128,
    pub token2_name: String,
    pub ledger_canister_id1: PrincipalId,
    pub ledger_canister_id2: PrincipalId,
}

impl SwapParams {
    /// A copy of the swap.
    pub fn duplicate(&self) -> (r: SwapParams)
        ensures
            r.token1_name@ == self.token1_name@,
            r.token_amount == self.token_amount,
            r.token2_name@ == self.token2_name@,
            r.ledger_canister_id1@ == self.ledger_canister_id1@,
            r.ledger_canister_id2@ == self.ledger_canister_id2@,
    {
        SwapParams {
            token1_name: self.token1_name.clone(),
            token_amount: self.token_amount,
            token2_name: self.token2_name.clone(),
            ledger_canister_id1: self.ledger_canister_id1.clone_key(),
            ledger_canister_id2: self.ledger_canister_id2.clone_key(),
        }
    }
}

/// The views of a sequence of pools.
pub open spec fn pools_view(v: Seq<Pool_Data>) -> Seq<PoolView> {
    v.map_values(|p: Pool_Data| p@)
}

/// A copy of a list of pools.
pub fn copy_pools(v: &Vec<Pool_Data>) -> (r: Vec<Pool_Data>)
    ensures
        pools_view(r@) == pools_view(v@),
{
    let n = v.len();
    let mut out: Vec<Pool_Data> = Vec::new();
    for i in 0..n
        invariant
            n == v@.len(),
            out@.len() == i,
            forall|j: int| 0 <= j < i ==> (#[trigger] out@[j])@ == v@[j]@,
    {
        out.push(v[i].duplicate());
    }
    assert(pools_view(out@) =~= pools_view(v@));
    out
}

} // verus!
