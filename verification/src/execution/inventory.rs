//! Liquidations that are funded just in time.
//!
//! What the wallet lacks of the liability token is bought from the reserve first, by a swap of
//! an exact input, and then the liquidation follows: the plan is `[buy?] [liquidate]`. The input
//! is sized from oracle prices, with a margin. Where the quote falls short of what is needed, the
//! input is raised once. What is bought in excess is sold again later.
//!
//! The caller performs the pending request and hands back what came of it.

use vstd::prelude::*;

use crate::cache::banks::{BankWrapper, BanksCache, BanksError};
use crate::cli::settings::{keypair_signer, wallet_pubkey};
use crate::execution::executor::{with_failure, BackoffState, NO_ROUTES_FOUND};
use crate::execution::{ExecutionPlan, LiquidationIntent};
use crate::fixed_point::{
    fits_u64, law_a_product_is_rounded_down, law_the_whole_part_is_cut_off, product, whole, I80F48,
    ONE_BITS,
};
use crate::pubkey::{base58_text, Pubkey};
use crate::text::{
    contains_text, copy, decimal, law_numbers_read_back, lemma_part_contains, occurs_at, parse_u64,
    u64_error, u64_error_of, u64_of_text, u64_text,
};
use crate::time::Instant;
use crate::transaction::{decode_message, sign_message, signed_transaction, transaction_message};

verus! {

/// The margin over the input that oracle prices give, as a fixed-point number: 1.02.
pub const INPUT_BUFFER_BITS: i128 = 287_104_476_244_869;

// ── How much to buy ──────────────────────────────────────────────────────────

/// How much of the liability token to buy: the part of the repayment that is not in the wallet.
/// The repayment is cut to whole units, as the liquidation does it.
pub fn buy_shortfall(repay_amount: I80F48, wallet_balance: u64) -> (shortfall: u64)
    requires
        fits_u64(repay_amount),
    ensures
        shortfall == if whole(repay_amount) > wallet_balance {
            whole(repay_amount) - wallet_balance
        } else {
            0
        },
{
    repay_amount.to_u64().saturating_sub(wallet_balance)
}

// ── JSON ─────────────────────────────────────────────────────────────────────

/// What `serde_json` makes of a text: the same document in its compact form, or an error with
/// its own text.
pub uninterp spec fn json_document(text: Seq<char>) -> Result<Seq<char>, Seq<char>>;

/// The member of a JSON object with a given name, as `Value::get` and `Value::as_str` of
/// `serde_json` give it: where the text is an object that has it, and it is a string.
pub uninterp spec fn json_member(text: Seq<char>, name: Seq<char>) -> Option<Seq<char>>;

/// What `STANDARD.decode` of `base64` makes of a text: bytes, or an error with its own text.
pub uninterp spec fn base64_bytes(text: Seq<char>) -> Result<Seq<u8>, Seq<char>>;

/// `serde_json::from_str::<Value>`, and the value's `Display`: the document in its compact form,
/// or the text of the error.
#[verifier::external_body]
fn parse_json(text: &str) -> (document: Result<String, String>)
    ensures
        match document {
            Ok(d) => json_document(text@) matches Ok(known) && known == d@,
            Err(e) => json_document(text@) matches Err(known) && known == e@,
        },
{
    match serde_json::from_str::<serde_json::Value>(text) {
        Ok(value) => Ok(value.to_string()),
        Err(error) => Err(error.to_string()),
    }
}

/// `Value::get` and `Value::as_str` of `serde_json`: a member that is a string.
#[verifier::external_body]
fn string_member(text: &str, name: &str) -> (member: Option<String>)
    ensures
        match member {
            Some(m) => json_member(text@, name@) == Some(m@),
            None => json_member(text@, name@) is None && member is None,
        },
{
    let value = serde_json::from_str::<serde_json::Value>(text).ok()?;
    Some(value.get(name)?.as_str()?.to_string())
}

/// `STANDARD.decode` of `base64`: the bytes, or the text of the error.
#[verifier::external_body]
fn decode_base64(text: &str) -> (bytes: Result<Vec<u8>, String>)
    ensures
        match bytes {
            Ok(b) => base64_bytes(text@) matches Ok(known) && known == b@,
            Err(e) => base64_bytes(text@) matches Err(known) && known == e@,
        },
{
    match base64::Engine::decode(&base64::engine::general_purpose::STANDARD, text.as_bytes()) {
        Ok(bytes) => Ok(bytes),
        Err(error) => Err(error.to_string()),
    }
}

// ── Errors ───────────────────────────────────────────────────────────────────

/// Why there is no plan. `E` is what a request of the caller fails with.
#[derive(Debug)]
pub enum InventoryError<E> {
    /// A bank is not known.
    Bank(BanksError),
    /// The amount to repay does not fit.
    RepayOverflow,
    /// The value of the input does not fit.
    SizingOverflow,
    /// The input comes to nothing.
    ZeroInput { min_out: u64, output_mint: Pubkey },
    /// An HTTP request was answered with an error.
    Status { context: String, status: String, body: String },
    /// The body of an answer is not JSON.
    InvalidJson { context: String, error: String, body: String },
    /// A quote has no output amount.
    MissingOutAmount { quote: String },
    /// The output amount of a quote is no number.
    OutAmountNotU64 { error: String },
    /// A raised input does not yield enough either.
    StillShort { out: u64, min_out: u64 },
    /// The answer to a swap has no transaction.
    MissingSwapTransaction { response: String },
    /// The transaction of a swap is not base64.
    Base64(String),
    /// The bytes of a swap are no transaction.
    Deserialize(String),
    /// The transaction of a swap could not be signed.
    Sign(String),
    /// A request of the caller failed.
    Outside(E),
}

impl<E> InventoryError<E> {
    /// What the error says, unless that is for the caller to say.
    pub open spec fn text(&self) -> Option<Seq<char>> {
        match *self {
            InventoryError::Bank(e) => Some(e.text()),
            InventoryError::RepayOverflow => Some("repay amount overflow"@),
            InventoryError::SizingOverflow => Some("input sizing overflow"@),
            InventoryError::ZeroInput { min_out, output_mint } => Some(
                "computed zero swap_mint input for buying "@ + decimal(min_out as nat) + " "@
                    + base58_text(output_mint),
            ),
            InventoryError::Status { context, status, body } => Some(
                context@ + " failed ("@ + status@ + "): "@ + body@,
            ),
            InventoryError::InvalidJson { context, error, body } => Some(
                context@ + ": invalid JSON ("@ + error@ + "): "@ + body@,
            ),
            InventoryError::MissingOutAmount { quote } => Some(
                "Jupiter quote missing outAmount: "@ + quote@,
            ),
            InventoryError::OutAmountNotU64 { error } => Some(
                "Jupiter quote outAmount not a u64: "@ + error@,
            ),
            InventoryError::StillShort { out, min_out } => Some(
                "Jupiter ExactIn quote still short after re-quote: out "@ + decimal(out as nat)
                    + " < needed "@ + decimal(min_out as nat),
            ),
            InventoryError::MissingSwapTransaction { response } => Some(
                "Jupiter swap response missing swapTransaction: "@ + response@,
            ),
            InventoryError::Base64(error) => Some(
                "Failed to base64-decode Jupiter swap tx: "@ + error@,
            ),
            InventoryError::Deserialize(error) => Some(
                "Failed to deserialize Jupiter swap tx: "@ + error@,
            ),
            InventoryError::Sign(error) => Some(error@),
            InventoryError::Outside(_) => None,
        }
    }

    /// What the error says; `None` where that is for the caller to say.
    pub fn message(&self) -> (message: Option<String>)
        ensures
            match message {
                Some(m) => self.text() == Some(m@),
                None => self.text() is None,
            },
    {
        let mut m = String::new();
        match self {
            InventoryError::Bank(e) => {
                m = e.message();
            },
            InventoryError::RepayOverflow => {
                m = copy("repay amount overflow");
            },
            InventoryError::SizingOverflow => {
                m = copy("input sizing overflow");
            },
            InventoryError::ZeroInput { min_out, output_mint } => {
                m.append("computed zero swap_mint input for buying ");
                m.append(u64_text(*min_out).as_str());
                m.append(" ");
                m.append(output_mint.to_text().as_str());
            },
            InventoryError::Status { context, status, body } => {
                m.append(context.as_str());
                m.append(" failed (");
                m.append(status.as_str());
                m.append("): ");
                m.append(body.as_str());
            },
            InventoryError::InvalidJson { context, error, body } => {
                m.append(context.as_str());
                m.append(": invalid JSON (");
                m.append(error.as_str());
                m.append("): ");
                m.append(body.as_str());
            },
            InventoryError::MissingOutAmount { quote } => {
                m.append("Jupiter quote missing outAmount: ");
                m.append(quote.as_str());
            },
            InventoryError::OutAmountNotU64 { error } => {
                m.append("Jupiter quote outAmount not a u64: ");
                m.append(error.as_str());
            },
            InventoryError::StillShort { out, min_out } => {
                m.append("Jupiter ExactIn quote still short after re-quote: out ");
                m.append(u64_text(*out).as_str());
                m.append(" < needed ");
                m.append(u64_text(*min_out).as_str());
            },
            InventoryError::MissingSwapTransaction { response } => {
                m.append("Jupiter swap response missing swapTransaction: ");
                m.append(response.as_str());
            },
            InventoryError::Base64(error) => {
                m.append("Failed to base64-decode Jupiter swap tx: ");
                m.append(error.as_str());
            },
            InventoryError::Deserialize(error) => {
                m.append("Failed to deserialize Jupiter swap tx: ");
                m.append(error.as_str());
            },
            InventoryError::Sign(error) => {
                m = copy(error.as_str());
            },
            InventoryError::Outside(_) => {
                return None;
            },
        }
        assert(Some(m@) =~= self.text());
        Some(m)
    }
}

// ── Answers ──────────────────────────────────────────────────────────────────

/// An answer to an HTTP request.
#[derive(Debug)]
pub struct Response {
    /// Whether the status is one of success.
    pub success: bool,
    /// The status as it is printed.
    pub status: String,
    pub body: String,
}

/// The error of an answer, if it is one of failure or its body is not JSON.
pub open spec fn response_fails<E>(
    response: Response,
    context: Seq<char>,
    error: InventoryError<E>,
) -> bool {
    if !response.success {
        error matches InventoryError::Status { context: c, status, body } && c@ == context
            && status@ == response.status@ && body@ == response.body@
    } else {
        error matches InventoryError::InvalidJson { context: c, error: e, body } && c@ == context
            && body@ == response.body@ && (json_document(response.body@) matches Err(known)
            && known == e@)
    }
}

/// The JSON document in the body of an answer. The body of a failure becomes part of the error,
/// so that what it says about routes is not lost.
pub fn json_or_err<E>(response: Response, context: &str) -> (r: Result<String, InventoryError<E>>)
    ensures
        match r {
            Ok(document) => response.success && (json_document(response.body@) matches Ok(known)
                && known == document@),
            Err(error) => response_fails(response, context@, error),
        },
{
    let Response { success, status, body } = response;
    if !success {
        return Err(InventoryError::Status { context: copy(context), status, body });
    }
    match parse_json(body.as_str()) {
        Ok(document) => Ok(document),
        Err(error) => Err(InventoryError::InvalidJson { context: copy(context), error, body }),
    }
}

/// The output amount of a quote: a number in a string.
pub open spec fn out_amount_of(quote: Seq<char>) -> Option<u64> {
    match json_member(quote, "outAmount"@) {
        Some(text) => u64_of_text(text),
        None => None,
    }
}

/// The output amount of a quote.
pub fn quote_out_amount<E>(quote: &str) -> (r: Result<u64, InventoryError<E>>)
    ensures
        match r {
            Ok(out) => out_amount_of(quote@) == Some(out),
            Err(InventoryError::MissingOutAmount { quote: q }) => q@ == quote@ && json_member(
                quote@,
                "outAmount"@,
            ) is None,
            Err(InventoryError::OutAmountNotU64 { error }) => {
                &&& json_member(quote@, "outAmount"@) matches Some(text)
                &&& u64_of_text(text) is None
                &&& error@ == u64_error_of(text)
            },
            Err(_) => false,
        },
{
    match string_member(quote, "outAmount") {
        None => Err(InventoryError::MissingOutAmount { quote: copy(quote) }),
        Some(text) => match parse_u64(text.as_str()) {
            Some(out) => Ok(out),
            None => Err(InventoryError::OutAmountNotU64 { error: u64_error(text.as_str()) }),
        },
    }
}

/// The outcome of reading the transaction out of a swap's answer and signing it.
pub open spec fn swap_tx_of<E>(
    document: Seq<char>,
    keypair: Seq<u8>,
    r: Result<Vec<u8>, InventoryError<E>>,
) -> bool {
    match json_member(document, "swapTransaction"@) {
        None => r matches Err(InventoryError::MissingSwapTransaction { response }) && response@
            == document,
        Some(text) => match base64_bytes(text) {
            Err(error) => r matches Err(InventoryError::Base64(e)) && e@ == error,
            Ok(bytes) => match transaction_message(bytes) {
                Err(error) => r matches Err(InventoryError::Deserialize(e)) && e@ == error,
                Ok(message) => match signed_transaction(message, keypair) {
                    Err(error) => r matches Err(InventoryError::Sign(e)) && e@ == error,
                    Ok(tx) => r matches Ok(t) && t@ == tx,
                },
            },
        },
    }
}

/// The transaction in a swap's answer, signed.
pub fn sign_swap_tx<E>(document: &str, keypair: &Vec<u8>) -> (r: Result<Vec<u8>, InventoryError<E>>)
    ensures
        swap_tx_of(document@, keypair@, r),
{
    let text = match string_member(document, "swapTransaction") {
        Some(text) => text,
        None => {
            return Err(InventoryError::MissingSwapTransaction { response: copy(document) });
        },
    };
    let bytes = match decode_base64(text.as_str()) {
        Ok(bytes) => bytes,
        Err(e) => {
            return Err(InventoryError::Base64(e));
        },
    };
    let message = match decode_message(&bytes) {
        Ok(message) => message,
        Err(e) => {
            return Err(InventoryError::Deserialize(e));
        },
    };
    match sign_message(&message, keypair) {
        Ok(tx) => Ok(tx),
        Err(e) => Err(InventoryError::Sign(e)),
    }
}

// ── The strategy ─────────────────────────────────────────────────────────────

/// The strategy, with its settings.
#[derive(Debug)]
pub struct InventoryStrategy {
    keypair: Vec<u8>,
    signer: Pubkey,
    swap_mint: Pubkey,
    jup_swap_api_url: String,
    slippage_bps: u16,
    repay_share: I80F48,
}

/// The settings of a strategy.
pub struct StrategySettings {
    /// The key pair that signs.
    pub keypair: Seq<u8>,
    /// The address of its signer.
    pub signer: Pubkey,
    /// The token of the reserve.
    pub swap_mint: Pubkey,
    /// The URL of the swap API.
    pub jup_swap_api_url: Seq<char>,
    /// The slippage that a swap may have, in basis points.
    pub slippage_bps: u16,
    /// The part of the liability that is repaid; the rest is profit.
    pub repay_share: I80F48,
}

/// The wallet that is named in requests is the one that the key pair signs for.
pub open spec fn strategy_wf(s: StrategySettings) -> bool {
    keypair_signer(s.keypair) == Some(s.signer)
}

impl View for InventoryStrategy {
    type V = StrategySettings;

    closed spec fn view(&self) -> StrategySettings {
        StrategySettings {
            keypair: self.keypair@,
            signer: self.signer,
            swap_mint: self.swap_mint,
            jup_swap_api_url: self.jup_swap_api_url@,
            slippage_bps: self.slippage_bps,
            repay_share: self.repay_share,
        }
    }
}

/// The parameters of a request, as they are printed.
pub open spec fn param_views(params: Seq<(String, String)>) -> Seq<(Seq<char>, Seq<char>)> {
    params.map_values(|p: (String, String)| (p.0@, p.1@))
}

fn push_param(params: &mut Vec<(String, String)>, name: &str, value: &str)
    ensures
        param_views(final(params)@) == param_views(old(params)@).push((name@, value@)),
{
    let ghost before = params@;
    params.push((copy(name), copy(value)));
    assert(param_views(params@) =~= param_views(before).push((name@, value@)));
}

impl InventoryStrategy {
    #[verifier::type_invariant]
    spec fn valid(&self) -> bool {
        strategy_wf(self@)
    }

    /// A strategy with these settings, whose wallet is that of the key pair; `None` where the
    /// bytes are no key pair.
    pub fn new(
        keypair: Vec<u8>,
        swap_mint: Pubkey,
        jup_swap_api_url: String,
        slippage_bps: u16,
        repay_share: I80F48,
    ) -> (s: Option<InventoryStrategy>)
        ensures
            match s {
                Some(s) => strategy_wf(s@) && s@ == (StrategySettings {
                    keypair: keypair@,
                    signer: keypair_signer(keypair@)->0,
                    swap_mint,
                    jup_swap_api_url: jup_swap_api_url@,
                    slippage_bps,
                    repay_share,
                }),
                None => keypair_signer(keypair@) is None,
            },
    {
        match wallet_pubkey(&keypair) {
            Some(signer) => Some(
                InventoryStrategy {
                    keypair,
                    signer,
                    swap_mint,
                    jup_swap_api_url,
                    slippage_bps,
                    repay_share,
                },
            ),
            None => None,
        }
    }

    /// The token of the reserve.
    pub fn swap_mint(&self) -> (mint: Pubkey)
        ensures
            mint == self@.swap_mint,
    {
        self.swap_mint
    }

    /// The name of the strategy.
    pub fn name(&self) -> (name: &'static str)
        ensures
            name@ == "inventory"@,
    {
        "inventory"
    }

    /// The bank at whose oracle price a token is valued: the one of the group's own liquidity. No
    /// balance of the token is needed.
    pub fn value_bank<'a>(banks: &'a BanksCache, mint: &Pubkey) -> (bank: Result<
        &'a BankWrapper,
        BanksError,
    >)
        requires
            banks.wf(),
        ensures
            match bank {
                Ok(b) => banks.p0_banks().contains_key(*mint) && *b
                    == banks.banks()[banks.p0_banks()[*mint]] && b.address
                    == banks.p0_banks()[*mint],
                Err(e) => !banks.p0_banks().contains_key(*mint) && e == BanksError::MintNotFound(
                    *mint,
                ),
            },
    {
        match banks.try_get_account_for_mint(mint) {
            Ok(address) => banks.try_get_bank(&address),
            Err(e) => Err(e),
        }
    }

    /// The URL of a quote.
    pub fn quote_url(&self) -> (url: String)
        ensures
            url@ == self@.jup_swap_api_url + "/quote"@,
    {
        let mut url = copy(self.jup_swap_api_url.as_str());
        url.append("/quote");
        url
    }

    /// The URL of a swap.
    pub fn swap_url(&self) -> (url: String)
        ensures
            url@ == self@.jup_swap_api_url + "/swap"@,
    {
        let mut url = copy(self.jup_swap_api_url.as_str());
        url.append("/swap");
        url
    }

    /// The parameters of a quote for an exact input.
    pub fn quote_params(&self, input_mint: &Pubkey, output_mint: &Pubkey, amount: u64) -> (
    params: Vec<(String, String)>)
        ensures
            param_views(params@) == seq![
                ("inputMint"@, base58_text(*input_mint)),
                ("outputMint"@, base58_text(*output_mint)),
                ("amount"@, decimal(amount as nat)),
                ("swapMode"@, "ExactIn"@),
                ("slippageBps"@, decimal(self@.slippage_bps as nat)),
            ],
    {
        let mut params: Vec<(String, String)> = Vec::new();
        assert(param_views(params@) =~= Seq::empty());
        push_param(&mut params, "inputMint", input_mint.to_text().as_str());
        push_param(&mut params, "outputMint", output_mint.to_text().as_str());
        push_param(&mut params, "amount", u64_text(amount).as_str());
        push_param(&mut params, "swapMode", "ExactIn");
        push_param(&mut params, "slippageBps", u64_text(self.slippage_bps as u64).as_str());
        assert(param_views(params@) =~= seq![
            ("inputMint"@, base58_text(*input_mint)),
            ("outputMint"@, base58_text(*output_mint)),
            ("amount"@, decimal(amount as nat)),
            ("swapMode"@, "ExactIn"@),
            ("slippageBps"@, decimal(self.slippage_bps as nat)),
        ]);
        params
    }

    /// The body of a swap request: the quote, the wallet that the key pair signs for, and that
    /// wrapped SOL stays a token.
    pub fn swap_body(&self, quote: &str) -> (body: String)
        ensures
            strategy_wf(self@),
            body@ == "{\"quoteResponse\":"@ + quote@ + ",\"userPublicKey\":\""@ + base58_text(
                self@.signer,
            ) + "\",\"wrapAndUnwrapSol\":false}"@,
    {
        proof {
            use_type_invariant(self);
        }
        let mut body = copy("{\"quoteResponse\":");
        body.append(quote);
        body.append(",\"userPublicKey\":\"");
        body.append(self.signer.to_text().as_str());
        body.append("\",\"wrapAndUnwrapSol\":false}");
        body
    }
}

// ── Buying ───────────────────────────────────────────────────────────────────

/// Where a purchase stands.
#[derive(Debug)]
pub enum BuyPhase<E> {
    /// The value is asked for of what is to be bought.
    Valuing,
    /// The amount of the reserve's token is asked for that is worth a value.
    Sizing(I80F48),
    /// A quote is asked for, for this input.
    Quoting(u64),
    /// The input yields too little; a larger one is asked for.
    Raising { input: u64, out: u64 },
    /// A quote is asked for, for the larger input.
    Requoting(u64),
    /// The transaction is asked for that carries this quote out.
    Swapping(String),
    /// The signed transaction, or why there is none.
    Done(Result<Vec<u8>, InventoryError<E>>),
}

/// A purchase of at least `min_out` of a token.
#[derive(Debug)]
pub struct BuyRun<E> {
    pub output_mint: Pubkey,
    pub min_out: u64,
    pub phase: BuyPhase<E>,
}

/// What the caller is to do for a purchase.
#[derive(Debug)]
pub enum BuyRequest {
    /// Value an amount of a token at its oracle price.
    Value { mint: Pubkey, amount: u64 },
    /// Convert a value into an amount of a token at its oracle price.
    Amount { mint: Pubkey, value: I80F48 },
    /// Ask for a quote.
    Quote { input_mint: Pubkey, output_mint: Pubkey, amount: u64 },
    /// Raise the input in proportion to what is lacking, with a margin.
    Raise { input: u64, out: u64, min_out: u64 },
    /// Ask for a swap's transaction.
    Swap { quote: String },
    /// Nothing.
    Nothing,
}

/// What came of it.
#[derive(Debug)]
pub enum BuyEvent<E> {
    Value(I80F48),
    Amount(I80F48),
    Raised(u64),
    /// An HTTP request was answered.
    Answer(Response),
    /// The request failed.
    Failed(E),
}

/// What a quote leads to: it is carried out where it yields enough; otherwise the input is
/// raised, unless it has been raised already.
pub open spec fn quoted<E>(
    min_out: u64,
    input: u64,
    raised: bool,
    response: Response,
    phase: BuyPhase<E>,
) -> bool {
    match json_document(response.body@) {
        Ok(document) if response.success => match out_amount_of(document) {
            Some(out) => if out >= min_out {
                phase matches BuyPhase::Swapping(quote) && quote@ == document
            } else if raised {
                phase == BuyPhase::<E>::Done(Err(InventoryError::StillShort { out, min_out }))
            } else {
                phase == BuyPhase::<E>::Raising { input, out }
            },
            None => match json_member(document, "outAmount"@) {
                None => phase matches BuyPhase::Done(
                    Err(InventoryError::MissingOutAmount { quote }),
                ) && quote@ == document,
                Some(text) => phase matches BuyPhase::Done(
                    Err(InventoryError::OutAmountNotU64 { error }),
                ) && error@ == u64_error_of(text),
            },
        },
        _ => phase matches BuyPhase::Done(Err(e)) && response_fails(
            response,
            "Jupiter quote"@,
            e,
        ),
    }
}

/// What a purchase becomes by an event. An event that answers another request changes nothing.
pub open spec fn buy_follows<E>(
    strategy: StrategySettings,
    r: BuyRun<E>,
    event: BuyEvent<E>,
    next: BuyRun<E>,
) -> bool {
    &&& next.output_mint == r.output_mint
    &&& next.min_out == r.min_out
    &&& match (r.phase, event) {
        (BuyPhase::Done(_), _) => next.phase == r.phase,
        (_, BuyEvent::Failed(e)) => next.phase == BuyPhase::<E>::Done(
            Err(InventoryError::Outside(e)),
        ),
        (BuyPhase::Valuing, BuyEvent::Value(value)) => match product(
            value,
            I80F48 { bits: INPUT_BUFFER_BITS },
        ) {
            Some(buffered) => next.phase == BuyPhase::<E>::Sizing(buffered),
            None => next.phase == BuyPhase::<E>::Done(Err(InventoryError::SizingOverflow)),
        },
        (BuyPhase::Sizing(_), BuyEvent::Amount(amount)) => next.phase == if whole(amount) == 0 {
            BuyPhase::<E>::Done(
                Err(
                    InventoryError::ZeroInput { min_out: r.min_out, output_mint: r.output_mint },
                ),
            )
        } else {
            BuyPhase::<E>::Quoting(whole(amount) as u64)
        },
        (BuyPhase::Quoting(input), BuyEvent::Answer(response)) => quoted(
            r.min_out,
            input,
            false,
            response,
            next.phase,
        ),
        (BuyPhase::Raising { .. }, BuyEvent::Raised(input)) => next.phase == BuyPhase::<
            E,
        >::Requoting(input),
        (BuyPhase::Requoting(input), BuyEvent::Answer(response)) => quoted(
            r.min_out,
            input,
            true,
            response,
            next.phase,
        ),
        (BuyPhase::Swapping(_), BuyEvent::Answer(response)) => match json_document(
            response.body@,
        ) {
            Ok(document) if response.success => next.phase matches BuyPhase::Done(result)
                && swap_tx_of(document, strategy.keypair, result),
            _ => next.phase matches BuyPhase::Done(Err(e)) && response_fails(
                response,
                "Jupiter swap"@,
                e,
            ),
        },
        _ => next.phase == r.phase,
    }
}

/// An amount that an event brings is one of whole units.
pub open spec fn buy_computable<E>(r: BuyRun<E>, event: BuyEvent<E>) -> bool {
    (r.phase is Sizing && event is Amount) ==> fits_u64(event->Amount_0)
}

/// The request that a purchase waits on.
pub open spec fn buy_request<E>(
    strategy: StrategySettings,
    r: BuyRun<E>,
    request: BuyRequest,
) -> bool {
    match r.phase {
        BuyPhase::Valuing => request == (BuyRequest::Value {
            mint: r.output_mint,
            amount: r.min_out,
        }),
        BuyPhase::Sizing(value) => request == (BuyRequest::Amount {
            mint: strategy.swap_mint,
            value,
        }),
        BuyPhase::Quoting(amount) | BuyPhase::Requoting(amount) => request == (BuyRequest::Quote {
            input_mint: strategy.swap_mint,
            output_mint: r.output_mint,
            amount,
        }),
        BuyPhase::Raising { input, out } => request == (BuyRequest::Raise {
            input,
            out,
            min_out: r.min_out,
        }),
        BuyPhase::Swapping(known) => request matches BuyRequest::Swap { quote } && quote@
            == known@,
        BuyPhase::Done(_) => request == BuyRequest::Nothing,
    }
}

fn quote_phase<E>(min_out: u64, input: u64, raised: bool, response: Response) -> (phase: BuyPhase<
    E,
>)
    ensures
        quoted(min_out, input, raised, response, phase),
{
    let document = match json_or_err::<E>(response, "Jupiter quote") {
        Ok(document) => document,
        Err(e) => {
            return BuyPhase::Done(Err(e));
        },
    };
    match quote_out_amount::<E>(document.as_str()) {
        Ok(out) => if out >= min_out {
            BuyPhase::Swapping(document)
        } else if raised {
            BuyPhase::Done(Err(InventoryError::StillShort { out, min_out }))
        } else {
            BuyPhase::Raising { input, out }
        },
        Err(e) => BuyPhase::Done(Err(e)),
    }
}

impl InventoryStrategy {
    /// Starts to buy at least `min_out` of a token.
    pub fn build_buy_tx<E>(&self, output_mint: Pubkey, min_out: u64) -> (r: BuyRun<E>)
        ensures
            r == (BuyRun { output_mint, min_out, phase: BuyPhase::<E>::Valuing }),
    {
        BuyRun { output_mint, min_out, phase: BuyPhase::Valuing }
    }

    /// The pending request of a purchase.
    pub fn buy_request<E>(&self, r: &BuyRun<E>) -> (request: BuyRequest)
        ensures
            buy_request(self@, *r, request),
    {
        match &r.phase {
            BuyPhase::Valuing => BuyRequest::Value { mint: r.output_mint, amount: r.min_out },
            BuyPhase::Sizing(value) => BuyRequest::Amount { mint: self.swap_mint, value: *value },
            BuyPhase::Quoting(amount) => BuyRequest::Quote {
                input_mint: self.swap_mint,
                output_mint: r.output_mint,
                amount: *amount,
            },
            BuyPhase::Raising { input, out } => BuyRequest::Raise {
                input: *input,
                out: *out,
                min_out: r.min_out,
            },
            BuyPhase::Requoting(amount) => BuyRequest::Quote {
                input_mint: self.swap_mint,
                output_mint: r.output_mint,
                amount: *amount,
            },
            BuyPhase::Swapping(quote) => BuyRequest::Swap { quote: copy(quote.as_str()) },
            BuyPhase::Done(_) => BuyRequest::Nothing,
        }
    }

    /// Takes an event in for a purchase.
    pub fn buy_step<E>(&self, r: BuyRun<E>, event: BuyEvent<E>) -> (next: BuyRun<E>)
        requires
            buy_computable(r, event),
        ensures
            strategy_wf(self@),
            buy_follows(self@, r, event, next),
    {
        proof {
            use_type_invariant(self);
        }
        let BuyRun { output_mint, min_out, phase } = r;
        let phase = match (phase, event) {
            (BuyPhase::Done(result), _) => BuyPhase::Done(result),
            (_, BuyEvent::Failed(e)) => BuyPhase::Done(Err(InventoryError::Outside(e))),
            (BuyPhase::Valuing, BuyEvent::Value(value)) => {
                match value.checked_mul(I80F48 { bits: INPUT_BUFFER_BITS }) {
                    Some(buffered) => BuyPhase::Sizing(buffered),
                    None => BuyPhase::Done(Err(InventoryError::SizingOverflow)),
                }
            },
            (BuyPhase::Sizing(_), BuyEvent::Amount(amount)) => {
                let input: u64 = amount.to_u64();
                if input == 0 {
                    BuyPhase::Done(Err(InventoryError::ZeroInput { min_out, output_mint }))
                } else {
                    BuyPhase::Quoting(input)
                }
            },
            (BuyPhase::Quoting(input), BuyEvent::Answer(response)) => quote_phase(
                min_out,
                input,
                false,
                response,
            ),
            (BuyPhase::Raising { .. }, BuyEvent::Raised(input)) => BuyPhase::Requoting(input),
            (BuyPhase::Requoting(input), BuyEvent::Answer(response)) => quote_phase(
                min_out,
                input,
                true,
                response,
            ),
            (BuyPhase::Swapping(_), BuyEvent::Answer(response)) => {
                match json_or_err::<E>(response, "Jupiter swap") {
                    Ok(document) => BuyPhase::Done(
                        sign_swap_tx::<E>(document.as_str(), &self.keypair),
                    ),
                    Err(e) => BuyPhase::Done(Err(e)),
                }
            },
            (phase, _) => phase,
        };
        BuyRun { output_mint, min_out, phase }
    }
}

// ── Assembling a plan ────────────────────────────────────────────────────────

/// Where the assembly of a plan stands.
#[derive(Debug)]
pub enum AssemblePhase<E> {
    /// The wallet's balance of the liability token is asked for.
    Checking,
    /// What the wallet lacks is being bought.
    Buying(BuyRun<E>),
    /// The transaction of the liquidation is asked for. It follows the purchase, where there is
    /// one.
    Building(Option<Vec<u8>>),
    /// The plan, or why there is none.
    Done(Result<ExecutionPlan<Vec<u8>>, InventoryError<E>>),
}

/// The assembly of a plan.
#[derive(Debug)]
pub struct AssembleRun<E> {
    pub liab_mint: Pubkey,
    pub asset_amount: I80F48,
    pub repay_amount: I80F48,
    pub phase: AssemblePhase<E>,
}

/// What the caller is to do for a plan.
#[derive(Debug)]
pub enum AssembleRequest {
    /// Look up the wallet's balance of a token.
    Balance(Pubkey),
    /// Carry out a request of the purchase.
    Buy(BuyRequest),
    /// Build the transaction of the liquidation.
    BuildLiquidation { asset_amount: I80F48, repay_amount: I80F48 },
    /// Nothing.
    Nothing,
}

/// What came of it.
#[derive(Debug)]
pub enum AssembleEvent<E> {
    /// The balance; `None` where there is no token account.
    Balance(Option<u64>),
    /// A request of the purchase came back.
    Buy(BuyEvent<E>),
    /// The transaction of the liquidation, and the lookup table that was created for it.
    Built { tx: Vec<u8>, temp_lut: Option<Pubkey> },
    /// The request failed.
    Failed(E),
}

/// How much is lacking.
pub open spec fn shortfall_of(repay_amount: I80F48, balance: Option<u64>) -> u64 {
    let held = match balance {
        Some(held) => held,
        None => 0,
    };
    if whole(repay_amount) > held {
        (whole(repay_amount) - held) as u64
    } else {
        0
    }
}

/// The plan `[buy?] [liquidate]`, with the lookup table of the liquidation.
pub open spec fn is_plan(
    plan: ExecutionPlan<Vec<u8>>,
    buy: Option<Vec<u8>>,
    tx: Vec<u8>,
    temp_lut: Option<Pubkey>,
) -> bool {
    &&& plan.txs@ == match buy {
        Some(buy) => seq![buy, tx],
        None => seq![tx],
    }
    &&& plan.temp_luts@ == match temp_lut {
        Some(lut) => seq![lut],
        None => Seq::empty(),
    }
}

/// What an assembly becomes by a state of its purchase.
pub open spec fn after_buy<E>(buy: BuyRun<E>, phase: AssemblePhase<E>) -> bool {
    match buy.phase {
        BuyPhase::Done(Ok(tx)) => phase == AssemblePhase::<E>::Building(Some(tx)),
        BuyPhase::Done(Err(e)) => phase == AssemblePhase::<E>::Done(Err(e)),
        _ => phase == AssemblePhase::Buying(buy),
    }
}

/// What an assembly becomes by an event. An event that answers another request changes nothing.
pub open spec fn assemble_follows<E>(
    strategy: StrategySettings,
    r: AssembleRun<E>,
    event: AssembleEvent<E>,
    next: AssembleRun<E>,
) -> bool {
    &&& next.liab_mint == r.liab_mint
    &&& next.asset_amount == r.asset_amount
    &&& next.repay_amount == r.repay_amount
    &&& match (r.phase, event) {
        (AssemblePhase::Checking, AssembleEvent::Balance(balance)) => {
            let shortfall = shortfall_of(r.repay_amount, balance);
            next.phase == if shortfall > 0 {
                AssemblePhase::Buying(
                    BuyRun {
                        output_mint: r.liab_mint,
                        min_out: shortfall,
                        phase: BuyPhase::<E>::Valuing,
                    },
                )
            } else {
                AssemblePhase::Building(None)
            }
        },
        (AssemblePhase::Buying(buy), AssembleEvent::Buy(e)) => exists|after: BuyRun<E>|
            buy_follows(strategy, buy, e, after) && after_buy(after, next.phase),
        (AssemblePhase::Building(buy), AssembleEvent::Built { tx, temp_lut }) => (
        next.phase matches AssemblePhase::Done(Ok(plan)) && is_plan(plan, buy, tx, temp_lut)),
        (AssemblePhase::Building(_), AssembleEvent::Failed(e)) => next.phase == AssemblePhase::<
            E,
        >::Done(Err(InventoryError::Outside(e))),
        _ => next.phase == r.phase,
    }
}

/// The amounts that an assembly computes with are ones of whole units.
pub open spec fn assemble_computable<E>(r: AssembleRun<E>, event: AssembleEvent<E>) -> bool {
    &&& fits_u64(r.repay_amount)
    &&& (r.phase is Buying && event is Buy) ==> buy_computable(r.phase->Buying_0, event->Buy_0)
}

/// The request that an assembly waits on.
pub open spec fn assemble_request<E>(
    strategy: StrategySettings,
    r: AssembleRun<E>,
    request: AssembleRequest,
) -> bool {
    match r.phase {
        AssemblePhase::Checking => request == AssembleRequest::Balance(r.liab_mint),
        AssemblePhase::Buying(buy) => request matches AssembleRequest::Buy(b) && buy_request(
            strategy,
            buy,
            b,
        ),
        AssemblePhase::Building(_) => request == (AssembleRequest::BuildLiquidation {
            asset_amount: r.asset_amount,
            repay_amount: r.repay_amount,
        }),
        AssemblePhase::Done(_) => request == AssembleRequest::Nothing,
    }
}

impl InventoryStrategy {
    /// Starts to assemble the plan of a liquidation. The whole liability is repaid, but for the
    /// share that is profit.
    pub fn assemble<E>(&self, banks: &BanksCache, intent: &LiquidationIntent) -> (r: Result<
        AssembleRun<E>,
        InventoryError<E>,
    >)
        requires
            banks.wf(),
        ensures
            match r {
                Ok(run) => banks.banks().contains_key(intent.liab_bank) && product(
                    intent.liab_amount,
                    self@.repay_share,
                ) == Some(run.repay_amount) && run.liab_mint
                    == banks.banks()[intent.liab_bank].bank.mint && run.asset_amount
                    == intent.asset_amount && run.phase is Checking,
                Err(InventoryError::Bank(e)) => !banks.banks().contains_key(intent.liab_bank) && e
                    == BanksError::BankNotFound(intent.liab_bank),
                Err(InventoryError::RepayOverflow) => banks.banks().contains_key(intent.liab_bank)
                    && product(intent.liab_amount, self@.repay_share) is None,
                Err(_) => false,
            },
    {
        let liab_mint = match banks.try_get_bank(&intent.liab_bank) {
            Ok(wrapper) => wrapper.bank.mint,
            Err(e) => {
                return Err(InventoryError::Bank(e));
            },
        };
        match intent.liab_amount.checked_mul(self.repay_share) {
            Some(repay_amount) => Ok(
                AssembleRun {
                    liab_mint,
                    asset_amount: intent.asset_amount,
                    repay_amount,
                    phase: AssemblePhase::Checking,
                },
            ),
            None => Err(InventoryError::RepayOverflow),
        }
    }

    /// The pending request of an assembly.
    pub fn assemble_request<E>(&self, r: &AssembleRun<E>) -> (request: AssembleRequest)
        ensures
            assemble_request(self@, *r, request),
    {
        match &r.phase {
            AssemblePhase::Checking => AssembleRequest::Balance(r.liab_mint),
            AssemblePhase::Buying(buy) => AssembleRequest::Buy(self.buy_request(buy)),
            AssemblePhase::Building(_) => AssembleRequest::BuildLiquidation {
                asset_amount: r.asset_amount,
                repay_amount: r.repay_amount,
            },
            AssemblePhase::Done(_) => AssembleRequest::Nothing,
        }
    }

    /// Whether the amounts that an assembly computes with are ones of whole units.
    pub fn can_take<E>(&self, r: &AssembleRun<E>, event: &AssembleEvent<E>) -> (ok: bool)
        ensures
            ok == assemble_computable(*r, *event),
    {
        if !r.repay_amount.is_u64() {
            return false;
        }
        match (&r.phase, event) {
            (AssemblePhase::Buying(buy), AssembleEvent::Buy(e)) => match (&buy.phase, e) {
                (BuyPhase::Sizing(_), BuyEvent::Amount(amount)) => amount.is_u64(),
                _ => true,
            },
            _ => true,
        }
    }

    /// Takes an event in for an assembly.
    pub fn assemble_step<E>(&self, r: AssembleRun<E>, event: AssembleEvent<E>) -> (
    next: AssembleRun<E>)
        requires
            assemble_computable(r, event),
        ensures
            strategy_wf(self@),
            assemble_follows(self@, r, event, next),
    {
        proof {
            use_type_invariant(self);
        }
        let AssembleRun { liab_mint, asset_amount, repay_amount, phase } = r;
        let phase = match (phase, event) {
            (AssemblePhase::Checking, AssembleEvent::Balance(balance)) => {
                let held: u64 = match balance {
                    Some(held) => held,
                    None => 0,
                };
                let shortfall: u64 = buy_shortfall(repay_amount, held);
                if shortfall > 0 {
                    AssemblePhase::Buying(self.build_buy_tx(liab_mint, shortfall))
                } else {
                    AssemblePhase::Building(None)
                }
            },
            (AssemblePhase::Buying(buy), AssembleEvent::Buy(e)) => {
                let after = self.buy_step(buy, e);
                let ghost known = after;
                let BuyRun { output_mint, min_out, phase } = after;
                let phase = match phase {
                    BuyPhase::Done(Ok(tx)) => AssemblePhase::Building(Some(tx)),
                    BuyPhase::Done(Err(e)) => AssemblePhase::Done(Err(e)),
                    phase => AssemblePhase::Buying(BuyRun { output_mint, min_out, phase }),
                };
                assert(buy_follows(self@, buy, e, known) && after_buy(known, phase));
                phase
            },
            (AssemblePhase::Building(buy), AssembleEvent::Built { tx, temp_lut }) => {
                let mut txs: Vec<Vec<u8>> = Vec::new();
                if let Some(buy) = buy {
                    txs.push(buy);
                }
                txs.push(tx);
                let mut temp_luts: Vec<Pubkey> = Vec::new();
                if let Some(lut) = temp_lut {
                    temp_luts.push(lut);
                }
                let plan = ExecutionPlan { txs, temp_luts };
                assert(plan.txs@ =~= match buy {
                    Some(buy) => seq![buy, tx],
                    None => seq![tx],
                });
                assert(plan.temp_luts@ =~= match temp_lut {
                    Some(lut) => seq![lut],
                    None => Seq::empty(),
                });
                AssemblePhase::Done(Ok(plan))
            },
            (AssemblePhase::Building(_), AssembleEvent::Failed(e)) => AssemblePhase::Done(
                Err(InventoryError::Outside(e)),
            ),
            (phase, _) => phase,
        };
        AssembleRun { liab_mint, asset_amount, repay_amount, phase }
    }
}

// ── Laws ─────────────────────────────────────────────────────────────────────

/// An answer that says there is no route leads to the quarantine of the liability mint: the
/// error carries the answer's body, and the executor finds the words in it.
pub proof fn law_route_errors_reach_the_quarantine<E>(
    response: Response,
    context: Seq<char>,
    error: InventoryError<E>,
    backoffs: Map<Pubkey, BackoffState>,
    target: Pubkey,
    liab_mint: Pubkey,
    now: Instant,
)
    requires
        response_fails(response, context, error),
        contains_text(response.body@, NO_ROUTES_FOUND@),
    ensures
        error.text() is Some,
        contains_text(error.text()->0, NO_ROUTES_FOUND@),
        with_failure(backoffs, target, liab_mint, error.text()->0, now).contains_key(liab_mint),
        with_failure(backoffs, target, liab_mint, error.text()->0, now)[liab_mint] is Mint,
{
    let body = response.body@;
    let text = error.text()->0;
    let before = text.take(text.len() - body.len());
    let after = Seq::<char>::empty();
    assert(text =~= before + body + after);
    lemma_part_contains(before, body, after, NO_ROUTES_FOUND@);
}

/// A purchase is carried out only where the quote yields at least what is needed.
pub proof fn law_a_purchase_yields_enough<E>(
    strategy: StrategySettings,
    r: BuyRun<E>,
    event: BuyEvent<E>,
    next: BuyRun<E>,
)
    requires
        buy_follows(strategy, r, event, next),
        !(r.phase is Swapping),
        next.phase is Swapping,
    ensures
        out_amount_of(next.phase->Swapping_0@) matches Some(out) && out >= r.min_out,
{
}

/// A purchase is signed by the key pair of the wallet that its request names.
pub proof fn law_the_named_wallet_signs<E>(
    strategy: StrategySettings,
    r: BuyRun<E>,
    event: BuyEvent<E>,
    next: BuyRun<E>,
    tx: Vec<u8>,
)
    requires
        buy_follows(strategy, r, event, next),
        r.phase is Swapping,
        next.phase == BuyPhase::<E>::Done(Ok(tx)),
    ensures
        strategy_wf(strategy) ==> exists|message: Seq<u8>, keypair: Seq<u8>|
            keypair_signer(keypair) == Some(strategy.signer) && #[trigger] signed_transaction(
                message,
                keypair,
            ) == Ok::<Seq<u8>, Seq<char>>(tx@),
{
}

/// How far a purchase is from its end, at most.
pub open spec fn buy_steps_left<E>(phase: BuyPhase<E>) -> nat {
    match phase {
        BuyPhase::Valuing => 6,
        BuyPhase::Sizing(_) => 5,
        BuyPhase::Quoting(_) => 4,
        BuyPhase::Raising { .. } => 3,
        BuyPhase::Requoting(_) => 2,
        BuyPhase::Swapping(_) => 1,
        BuyPhase::Done(_) => 0,
    }
}

/// The input is raised at most once, and every step that changes a purchase brings it nearer to
/// its end.
pub proof fn law_a_purchase_ends<E>(
    strategy: StrategySettings,
    r: BuyRun<E>,
    event: BuyEvent<E>,
    next: BuyRun<E>,
)
    requires
        buy_follows(strategy, r, event, next),
    ensures
        next.phase == r.phase || buy_steps_left(next.phase) < buy_steps_left(r.phase),
        next.phase is Raising ==> next.phase == r.phase || r.phase is Quoting,
{
}

/// Only what is lacking is bought, and nothing where the wallet covers the repayment: with the
/// purchase the wallet holds at least what the liquidation repays.
pub proof fn law_the_wallet_covers_the_repayment(repay_amount: I80F48, balance: u64)
    requires
        fits_u64(repay_amount),
    ensures
        balance + shortfall_of(repay_amount, Some(balance)) >= whole(repay_amount),
        balance >= whole(repay_amount) ==> shortfall_of(repay_amount, Some(balance)) == 0,
        shortfall_of(repay_amount, Some(balance)) > 0 ==> balance + shortfall_of(
            repay_amount,
            Some(balance),
        ) == whole(repay_amount),
{
}

/// A quote is carried out wherever it yields at least what is needed, the second one as the first.
/// One that falls short has the input raised once; the second time it is the end.
pub proof fn law_a_sufficient_quote_is_carried_out<E>(
    strategy: StrategySettings,
    r: BuyRun<E>,
    input: u64,
    response: Response,
    document: Seq<char>,
    out: u64,
    next: BuyRun<E>,
)
    requires
        r.phase == BuyPhase::<E>::Quoting(input) || r.phase == BuyPhase::<E>::Requoting(input),
        response.success,
        json_document(response.body@) == Ok::<Seq<char>, Seq<char>>(document),
        json_member(document, "outAmount"@) == Some(decimal(out as nat)),
        buy_follows(strategy, r, BuyEvent::Answer(response), next),
    ensures
        next.min_out == r.min_out,
        next.output_mint == r.output_mint,
        out >= r.min_out ==> (next.phase matches BuyPhase::Swapping(quote) && quote@ == document),
        out < r.min_out && r.phase is Quoting ==> next.phase == (BuyPhase::<E>::Raising {
            input,
            out,
        }),
        out < r.min_out && r.phase is Requoting ==> next.phase == BuyPhase::<E>::Done(
            Err(InventoryError::StillShort { out, min_out: r.min_out }),
        ),
{
    law_numbers_read_back(out as nat);
}

/// A purchase is given up as short only where the quote for the raised input yields less than is
/// needed.
pub proof fn law_only_a_short_quote_is_given_up<E>(
    strategy: StrategySettings,
    r: BuyRun<E>,
    event: BuyEvent<E>,
    next: BuyRun<E>,
    out: u64,
    min_out: u64,
)
    requires
        buy_follows(strategy, r, event, next),
        !(r.phase is Done),
        next.phase == BuyPhase::<E>::Done(Err(InventoryError::StillShort { out, min_out })),
        !(event is Failed),
    ensures
        out < min_out,
        min_out == r.min_out,
        r.phase is Requoting,
{
}

/// A quote without a readable output amount ends a purchase, and the error tells which it is.
pub proof fn law_an_unreadable_quote_ends_a_purchase<E>(
    strategy: StrategySettings,
    r: BuyRun<E>,
    response: Response,
    document: Seq<char>,
    next: BuyRun<E>,
)
    requires
        r.phase is Quoting || r.phase is Requoting,
        response.success,
        json_document(response.body@) == Ok::<Seq<char>, Seq<char>>(document),
        buy_follows(strategy, r, BuyEvent::Answer(response), next),
    ensures
        json_member(document, "outAmount"@) is None ==> (next.phase matches BuyPhase::Done(
            Err(InventoryError::MissingOutAmount { quote }),
        ) && quote@ == document),
        json_member(document, "outAmount"@) matches Some(text) ==> (u64_of_text(text) is None ==> (
        next.phase matches BuyPhase::Done(Err(InventoryError::OutAmountNotU64 { error }))
            && error@ == u64_error_of(text))),
{
}

/// The input of a purchase is worth what is needed, with the margin, cut to whole units; where
/// that is nothing, there is no purchase.
pub proof fn law_the_input_is_sized_with_a_margin<E>(
    strategy: StrategySettings,
    r: BuyRun<E>,
    number: I80F48,
    next: BuyRun<E>,
)
    requires
        r.phase is Valuing && buy_follows(strategy, r, BuyEvent::Value(number), next)
            || r.phase is Sizing && fits_u64(number) && buy_follows(
            strategy,
            r,
            BuyEvent::Amount(number),
            next,
        ),
    ensures
        r.phase is Valuing ==> match next.phase {
            BuyPhase::Sizing(value) => value.bits * ONE_BITS <= number.bits * INPUT_BUFFER_BITS < (
            value.bits + 1) * ONE_BITS,
            BuyPhase::Done(Err(InventoryError::SizingOverflow)) => number.bits * INPUT_BUFFER_BITS
                >= (i128::MAX + 1) * ONE_BITS || number.bits * INPUT_BUFFER_BITS < i128::MIN
                * ONE_BITS,
            _ => false,
        },
        r.phase is Sizing ==> match next.phase {
            BuyPhase::Quoting(input) => input > 0 && input * ONE_BITS <= number.bits < (input + 1)
                * ONE_BITS,
            BuyPhase::Done(Err(InventoryError::ZeroInput { min_out, output_mint })) => number.bits
                < ONE_BITS && min_out == r.min_out && output_mint == r.output_mint,
            _ => false,
        },
{
    law_a_product_is_rounded_down(number, I80F48 { bits: INPUT_BUFFER_BITS });
    if number.bits >= 0 {
        law_the_whole_part_is_cut_off(number);
    }
}

/// A raised input is quoted once more, as it is.
pub proof fn law_a_raised_input_is_quoted<E>(
    strategy: StrategySettings,
    r: BuyRun<E>,
    input: u64,
    next: BuyRun<E>,
    request: BuyRequest,
)
    requires
        r.phase is Raising,
        buy_follows(strategy, r, BuyEvent::Raised(input), next),
        buy_request(strategy, next, request),
    ensures
        next.phase == BuyPhase::<E>::Requoting(input),
        request == (BuyRequest::Quote {
            input_mint: strategy.swap_mint,
            output_mint: r.output_mint,
            amount: input,
        }),
{
}

/// A purchase asks in turn for the value of what it is to yield, for the amount of the reserve's
/// token that is worth it, for a quote from the reserve's token to the wanted one, and for the
/// transaction of just that quote.
pub proof fn law_a_purchase_asks_for_what_it_needs<E>(
    strategy: StrategySettings,
    r: BuyRun<E>,
    request: BuyRequest,
)
    requires
        buy_request(strategy, r, request),
    ensures
        match request {
            BuyRequest::Value { mint, amount } => r.phase is Valuing && mint == r.output_mint
                && amount == r.min_out,
            BuyRequest::Amount { mint, value } => mint == strategy.swap_mint && r.phase
                == BuyPhase::<E>::Sizing(value),
            BuyRequest::Quote { input_mint, output_mint, amount } => input_mint
                == strategy.swap_mint && output_mint == r.output_mint && (r.phase == BuyPhase::<
                E,
            >::Quoting(amount) || r.phase == BuyPhase::<E>::Requoting(amount)),
            BuyRequest::Raise { input, out, min_out } => r.phase == (BuyPhase::<E>::Raising {
                input,
                out,
            }) && min_out == r.min_out,
            BuyRequest::Swap { quote } => r.phase matches BuyPhase::Swapping(known) && known@
                == quote@,
            BuyRequest::Nothing => r.phase is Done,
        },
{
}

/// The transaction of a purchase is the one in the answer, decoded and signed with the strategy's
/// key pair; each way in which that can fail has its own error.
pub proof fn law_the_answered_transaction_is_signed<E>(
    strategy: StrategySettings,
    r: BuyRun<E>,
    response: Response,
    document: Seq<char>,
    text: Seq<char>,
    next: BuyRun<E>,
)
    requires
        r.phase is Swapping,
        response.success,
        json_document(response.body@) == Ok::<Seq<char>, Seq<char>>(document),
        json_member(document, "swapTransaction"@) == Some(text),
        buy_follows(strategy, r, BuyEvent::Answer(response), next),
    ensures
        base64_bytes(text) matches Err(error) ==> (next.phase matches BuyPhase::Done(
            Err(InventoryError::Base64(e)),
        ) && e@ == error),
        base64_bytes(text) matches Ok(bytes) ==> match transaction_message(bytes) {
            Err(error) => next.phase matches BuyPhase::Done(Err(InventoryError::Deserialize(e)))
                && e@ == error,
            Ok(message) => match signed_transaction(message, strategy.keypair) {
                Err(error) => next.phase matches BuyPhase::Done(Err(InventoryError::Sign(e))) && e@
                    == error,
                Ok(tx) => next.phase matches BuyPhase::Done(Ok(t)) && t@ == tx,
            },
        },
{
}

/// An answer without a transaction ends a purchase, and the error shows it.
pub proof fn law_a_purchase_needs_a_transaction<E>(
    strategy: StrategySettings,
    r: BuyRun<E>,
    response: Response,
    document: Seq<char>,
    next: BuyRun<E>,
)
    requires
        r.phase is Swapping,
        response.success,
        json_document(response.body@) == Ok::<Seq<char>, Seq<char>>(document),
        json_member(document, "swapTransaction"@) is None,
        buy_follows(strategy, r, BuyEvent::Answer(response), next),
    ensures
        next.phase matches BuyPhase::Done(Err(InventoryError::MissingSwapTransaction { response }))
            && response@ == document,
{
}

/// An answer that is a failure or no JSON ends a purchase, and the error says what the answer
/// said. A request that failed ends it too, with that error.
pub proof fn law_a_bad_answer_ends_a_purchase<E>(
    strategy: StrategySettings,
    r: BuyRun<E>,
    response: Response,
    error: E,
    next: BuyRun<E>,
    failed: BuyRun<E>,
)
    requires
        r.phase is Quoting || r.phase is Requoting || r.phase is Swapping,
        !response.success || json_document(response.body@) is Err,
        buy_follows(strategy, r, BuyEvent::Answer(response), next),
        buy_follows(strategy, r, BuyEvent::Failed(error), failed),
    ensures
        next.phase matches BuyPhase::Done(Err(e)) && match e.text() {
            Some(text) => contains_text(text, response.body@) && (!response.success
                ==> contains_text(text, response.status@)),
            None => false,
        },
        failed.phase == BuyPhase::<E>::Done(Err(InventoryError::Outside(error))),
{
    let e = next.phase->Done_0->Err_0;
    let text = e.text()->0;
    let body = response.body@;
    let nothing = Seq::<char>::empty();
    let front = text.take(text.len() - body.len());
    assert(text =~= front + body + nothing);
    assert(occurs_at(text, body, front.len() as int)) by {
        assert(text.subrange(front.len() as int, front.len() as int + body.len()) =~= body);
    }
    if !response.success {
        let context = if r.phase is Swapping {
            "Jupiter swap"@
        } else {
            "Jupiter quote"@
        };
        let status = response.status@;
        let before = context + " failed ("@;
        let at = before.len() as int;
        assert(text =~= before + status + ("): "@ + body));
        assert(text.subrange(at, at + status.len()) =~= status);
        assert(occurs_at(text, status, at));
    }
}

/// What was asked for earlier or not at all does not change a purchase, and a finished one stays
/// as it is.
pub proof fn law_only_answers_change_a_purchase<E>(
    strategy: StrategySettings,
    r: BuyRun<E>,
    event: BuyEvent<E>,
    next: BuyRun<E>,
)
    requires
        buy_follows(strategy, r, event, next),
        match r.phase {
            BuyPhase::Valuing => !(event is Value || event is Failed),
            BuyPhase::Sizing(_) => !(event is Amount || event is Failed),
            BuyPhase::Raising { .. } => !(event is Raised || event is Failed),
            BuyPhase::Done(_) => true,
            _ => !(event is Answer || event is Failed),
        },
    ensures
        next == r,
{
}

/// The wallet's balance decides: what it covers is not bought, and of the rest just the missing
/// part is, of the liability token. A wallet without an account of the token holds none.
pub proof fn law_just_the_shortfall_is_bought<E>(
    strategy: StrategySettings,
    r: AssembleRun<E>,
    balance: Option<u64>,
    next: AssembleRun<E>,
)
    requires
        r.phase is Checking,
        fits_u64(r.repay_amount),
        assemble_follows(strategy, r, AssembleEvent::Balance(balance), next),
    ensures
        ({
            let held: int = match balance {
                Some(held) => held as int,
                None => 0,
            };
            match next.phase {
                AssemblePhase::Building(None) => r.repay_amount.bits < (held + 1) * ONE_BITS,
                AssemblePhase::Buying(buy) => {
                    &&& buy.phase is Valuing
                    &&& buy.output_mint == r.liab_mint
                    &&& buy.min_out > 0
                    &&& (held + buy.min_out) * ONE_BITS <= r.repay_amount.bits < (held
                        + buy.min_out + 1) * ONE_BITS
                },
                _ => false,
            }
        }),
        next.liab_mint == r.liab_mint,
        next.asset_amount == r.asset_amount,
        next.repay_amount == r.repay_amount,
{
    law_the_whole_part_is_cut_off(r.repay_amount);
}

/// The liquidation is built when the purchase is done, and its transaction goes in front; without
/// a purchase there is no plan. As long as the purchase goes on, it follows its own rules.
pub proof fn law_the_purchase_comes_before_the_liquidation<E>(
    strategy: StrategySettings,
    r: AssembleRun<E>,
    buy: BuyRun<E>,
    event: BuyEvent<E>,
    next: AssembleRun<E>,
)
    requires
        r.phase == AssemblePhase::<E>::Buying(buy),
        assemble_follows(strategy, r, AssembleEvent::Buy(event), next),
    ensures
        match next.phase {
            AssemblePhase::Buying(after) => buy_follows(strategy, buy, event, after) && !(
            after.phase is Done),
            AssemblePhase::Building(Some(tx)) => exists|after: BuyRun<E>|
                buy_follows(strategy, buy, event, after) && after.phase == BuyPhase::<E>::Done(
                    Ok(tx),
                ),
            AssemblePhase::Done(Err(e)) => exists|after: BuyRun<E>|
                buy_follows(strategy, buy, event, after) && after.phase == BuyPhase::<E>::Done(
                    Err(e),
                ),
            _ => false,
        },
{
}

/// A plan is the purchase, where there is one, and then the liquidation, with the lookup table
/// that was created for it. Where the liquidation cannot be built, there is no plan.
pub proof fn law_a_plan_ends_with_the_liquidation<E>(
    strategy: StrategySettings,
    r: AssembleRun<E>,
    buy: Option<Vec<u8>>,
    tx: Vec<u8>,
    temp_lut: Option<Pubkey>,
    error: E,
    next: AssembleRun<E>,
    failed: AssembleRun<E>,
)
    requires
        r.phase == AssemblePhase::<E>::Building(buy),
        assemble_follows(strategy, r, AssembleEvent::Built { tx, temp_lut }, next),
        assemble_follows(strategy, r, AssembleEvent::Failed(error), failed),
    ensures
        next.phase matches AssemblePhase::Done(Ok(plan)) && {
            &&& plan.txs@.last() == tx
            &&& plan.txs@.len() == (if buy is Some {
                2int
            } else {
                1int
            })
            &&& buy is Some ==> plan.txs@[0] == buy->0
            &&& plan.temp_luts@.len() == (if temp_lut is Some {
                1int
            } else {
                0int
            })
            &&& temp_lut is Some ==> plan.temp_luts@[0] == temp_lut->0
        },
        failed.phase == AssemblePhase::<E>::Done(Err(InventoryError::Outside(error))),
{
}

/// An assembly asks for the wallet's balance of the liability token, hands on what the purchase
/// asks for, and then asks for the liquidation with the whole amounts.
pub proof fn law_an_assembly_asks_for_what_it_needs<E>(
    strategy: StrategySettings,
    r: AssembleRun<E>,
    request: AssembleRequest,
)
    requires
        assemble_request(strategy, r, request),
    ensures
        match request {
            AssembleRequest::Balance(mint) => r.phase is Checking && mint == r.liab_mint,
            AssembleRequest::Buy(b) => r.phase matches AssemblePhase::Buying(buy) && buy_request(
                strategy,
                buy,
                b,
            ),
            AssembleRequest::BuildLiquidation { asset_amount, repay_amount } => r.phase is Building
                && asset_amount == r.asset_amount && repay_amount == r.repay_amount,
            AssembleRequest::Nothing => r.phase is Done,
        },
{
}

/// What was not asked for does not change an assembly.
pub proof fn law_only_answers_change_an_assembly<E>(
    strategy: StrategySettings,
    r: AssembleRun<E>,
    event: AssembleEvent<E>,
    next: AssembleRun<E>,
)
    requires
        assemble_follows(strategy, r, event, next),
        match r.phase {
            AssemblePhase::Checking => !(event is Balance),
            AssemblePhase::Buying(_) => !(event is Buy),
            AssemblePhase::Building(_) => !(event is Built || event is Failed),
            AssemblePhase::Done(_) => true,
        },
    ensures
        next == r,
{
}

/// An assembly repays the intent's liability, but for the profit, rounded down, and seizes the
/// whole of the intent's asset.
pub proof fn law_the_whole_liability_is_repaid<E>(
    strategy: &InventoryStrategy,
    banks: &BanksCache,
    intent: &LiquidationIntent,
    r: Result<AssembleRun<E>, InventoryError<E>>,
)
    requires
        call_ensures(InventoryStrategy::assemble::<E>, (strategy, banks, intent), r),
    ensures
        match r {
            Ok(run) => {
                &&& run.phase is Checking
                &&& run.asset_amount == intent.asset_amount
                &&& run.liab_mint == banks.banks()[intent.liab_bank].bank.mint
                &&& run.repay_amount.bits * ONE_BITS <= intent.liab_amount.bits
                    * strategy@.repay_share.bits < (run.repay_amount.bits + 1) * ONE_BITS
            },
            Err(InventoryError::Bank(e)) => !banks.banks().contains_key(intent.liab_bank),
            Err(InventoryError::RepayOverflow) => banks.banks().contains_key(intent.liab_bank),
            Err(_) => false,
        },
{
    law_a_product_is_rounded_down(intent.liab_amount, strategy@.repay_share);
}

/// With what is bought the wallet holds just what is repaid; where it holds as much already,
/// nothing is bought.
pub proof fn law_the_shortfall_is_what_is_lacking(
    repay_amount: I80F48,
    wallet_balance: u64,
    shortfall: u64,
)
    requires
        fits_u64(repay_amount),
        call_ensures(buy_shortfall, (repay_amount, wallet_balance), shortfall),
    ensures
        shortfall > 0 ==> (wallet_balance + shortfall) * ONE_BITS <= repay_amount.bits < (
        wallet_balance + shortfall + 1) * ONE_BITS,
        shortfall == 0 ==> repay_amount.bits < (wallet_balance + 1) * ONE_BITS,
{
    law_the_whole_part_is_cut_off(repay_amount);
}

/// A quote is asked for with the mints, the amount and the slippage that it is for, each under its
/// name, and as one of an exact input.
pub proof fn law_a_quote_names_its_terms(
    strategy: &InventoryStrategy,
    input_mint: &Pubkey,
    output_mint: &Pubkey,
    amount: u64,
    params: Vec<(String, String)>,
)
    requires
        call_ensures(
            InventoryStrategy::quote_params,
            (strategy, input_mint, output_mint, amount),
            params,
        ),
    ensures
        ({
            let named = param_views(params@);
            &&& named.contains(("inputMint"@, base58_text(*input_mint)))
            &&& named.contains(("outputMint"@, base58_text(*output_mint)))
            &&& named.contains(("swapMode"@, "ExactIn"@))
            &&& exists|i: int|
                0 <= i < named.len() && (#[trigger] named[i]).0 == "amount"@ && u64_of_text(
                    named[i].1,
                ) == Some(amount)
            &&& exists|i: int|
                0 <= i < named.len() && (#[trigger] named[i]).0 == "slippageBps"@ && u64_of_text(
                    named[i].1,
                ) == Some(strategy@.slippage_bps as u64)
        }),
{
    law_numbers_read_back(amount as nat);
    law_numbers_read_back(strategy@.slippage_bps as nat);
    let named = param_views(params@);
    assert(named[0] == ("inputMint"@, base58_text(*input_mint)));
    assert(named[1] == ("outputMint"@, base58_text(*output_mint)));
    assert(named[2].0 == "amount"@);
    assert(named[3] == ("swapMode"@, "ExactIn"@));
    assert(named[4].0 == "slippageBps"@);
}

/// Purchases and assemblies start, ask and go on as the states of this module say.
pub proof fn law_purchases_follow_their_states<E>(
    s: &InventoryStrategy,
    output_mint: Pubkey,
    min_out: u64,
    start: BuyRun<E>,
    buy: BuyRun<E>,
    buy_event: BuyEvent<E>,
    next_buy: BuyRun<E>,
    asked: BuyRequest,
    run: AssembleRun<E>,
    event: AssembleEvent<E>,
    next: AssembleRun<E>,
    request: AssembleRequest,
)
    requires
        call_ensures(InventoryStrategy::build_buy_tx::<E>, (s, output_mint, min_out), start),
        call_ensures(InventoryStrategy::buy_step::<E>, (s, buy, buy_event), next_buy),
        call_ensures(InventoryStrategy::buy_request::<E>, (s, &buy), asked),
        call_ensures(InventoryStrategy::assemble_step::<E>, (s, run, event), next),
        call_ensures(InventoryStrategy::assemble_request::<E>, (s, &run), request),
    ensures
        start.output_mint == output_mint,
        start.min_out == min_out,
        start.phase is Valuing,
        buy_follows(s@, buy, buy_event, next_buy),
        buy_request(s@, buy, asked),
        assemble_follows(s@, run, event, next),
        assemble_request(s@, run, request),
        keypair_signer(s@.keypair) == Some(s@.signer),
{
}

/// An answer is read where it is one of success and its body is JSON; otherwise the error says
/// which of the two it is not.
pub proof fn law_answers_are_read<E>(
    response: Response,
    context: &str,
    r: Result<String, InventoryError<E>>,
)
    requires
        call_ensures(json_or_err::<E>, (response, context), r),
    ensures
        match (response.success, json_document(response.body@)) {
            (true, Ok(document)) => r matches Ok(d) && d@ == document,
            (true, Err(why)) => r matches Err(InventoryError::InvalidJson { context: c, error, body })
                && c@ == context@ && error@ == why && body@ == response.body@,
            (false, _) => r matches Err(InventoryError::Status { context: c, status, body }) && c@
                == context@ && status@ == response.status@ && body@ == response.body@,
        },
{
}

/// The output amount of a quote is the number in its string, and each quote without one has its
/// own error.
pub proof fn law_the_output_amount_is_read<E>(quote: &str, r: Result<u64, InventoryError<E>>)
    requires
        call_ensures(quote_out_amount::<E>, (quote,), r),
    ensures
        match json_member(quote@, "outAmount"@) {
            Some(text) => match u64_of_text(text) {
                Some(out) => r == Ok::<u64, InventoryError<E>>(out),
                None => r matches Err(InventoryError::OutAmountNotU64 { error }) && error@
                    == u64_error_of(text),
            },
            None => r matches Err(InventoryError::MissingOutAmount { quote: q }) && q@ == quote@,
        },
{
}

/// The transaction in an answer is signed with the key pair that is handed in.
pub proof fn law_an_answer_is_signed<E>(
    document: &str,
    keypair: &Vec<u8>,
    text: Seq<char>,
    bytes: Seq<u8>,
    message: Seq<u8>,
    r: Result<Vec<u8>, InventoryError<E>>,
)
    requires
        call_ensures(sign_swap_tx::<E>, (document, keypair), r),
        json_member(document@, "swapTransaction"@) == Some(text),
        base64_bytes(text) == Ok::<Seq<u8>, Seq<char>>(bytes),
        transaction_message(bytes) == Ok::<Seq<u8>, Seq<char>>(message),
    ensures
        match signed_transaction(message, keypair@) {
            Ok(tx) => r matches Ok(t) && t@ == tx,
            Err(error) => r matches Err(InventoryError::Sign(e)) && e@ == error,
        },
{
}

/// The requests to the swap API go to its two addresses, and the one for a swap holds the quote as
/// it came, the wallet, and that wrapped SOL stays as it is.
pub proof fn law_swaps_are_asked_for_with_their_quote(
    strategy: &InventoryStrategy,
    quote: &str,
    quote_url: String,
    swap_url: String,
    body: String,
    mint: Pubkey,
)
    requires
        call_ensures(InventoryStrategy::quote_url, (strategy,), quote_url),
        call_ensures(InventoryStrategy::swap_url, (strategy,), swap_url),
        call_ensures(InventoryStrategy::swap_body, (strategy, quote), body),
        call_ensures(InventoryStrategy::swap_mint, (strategy,), mint),
    ensures
        quote_url@ == strategy@.jup_swap_api_url + "/quote"@,
        swap_url@ == strategy@.jup_swap_api_url + "/swap"@,
        mint == strategy@.swap_mint,
        keypair_signer(strategy@.keypair) matches Some(wallet) && body@
            == "{\"quoteResponse\":"@ + quote@ + ",\"userPublicKey\":\""@ + base58_text(wallet)
            + "\",\"wrapAndUnwrapSol\":false}"@,
{
}

/// A token is valued by the bank of own liquidity of its mint.
pub proof fn law_tokens_are_valued_by_their_bank(
    banks: &BanksCache,
    mint: &Pubkey,
    bank: Result<&BankWrapper, BanksError>,
)
    requires
        call_ensures(InventoryStrategy::value_bank, (banks, mint), bank),
    ensures
        match bank {
            Ok(b) => banks.p0_banks().get(*mint) == Some(b.address) && *b
                == banks.banks()[b.address],
            Err(e) => !banks.p0_banks().contains_key(*mint) && e == BanksError::MintNotFound(*mint),
        },
{
}

/// What fits can be computed with: the amount to repay has to be one of whole units that fit in 64
/// bits, and so has an amount that the purchase asked for.
pub proof fn law_what_fits_can_be_taken<E>(
    strategy: &InventoryStrategy,
    r: &AssembleRun<E>,
    event: &AssembleEvent<E>,
    ok: bool,
)
    requires
        call_ensures(InventoryStrategy::can_take::<E>, (strategy, r, event), ok),
    ensures
        ok <==> 0 <= r.repay_amount.bits < (u64::MAX + 1) * ONE_BITS && match (r.phase, *event) {
            (AssemblePhase::Buying(buy), AssembleEvent::Buy(BuyEvent::Amount(amount))) => buy.phase
                is Sizing ==> 0 <= amount.bits < (u64::MAX + 1) * ONE_BITS,
            _ => true,
        },
{
    if r.repay_amount.bits >= 0 {
        law_the_whole_part_is_cut_off(r.repay_amount);
    }
}

/// Each error names what it is about: the numbers, the token, the answer, or what another part
/// said. Only where that is for the caller to say, it has no text of its own.
pub proof fn law_errors_name_what_they_are_about<E>(error: InventoryError<E>)
    ensures
        error.text() is None <==> error is Outside,
        match error {
            InventoryError::Bank(e) => error.text() == Some(e.text()),
            InventoryError::ZeroInput { min_out, output_mint } => contains_text(
                error.text()->0,
                decimal(min_out as nat),
            ) && contains_text(error.text()->0, base58_text(output_mint)),
            InventoryError::Status { context, status, body } => contains_text(
                error.text()->0,
                context@,
            ) && contains_text(error.text()->0, status@) && contains_text(error.text()->0, body@),
            InventoryError::InvalidJson { context, error: why, body } => contains_text(
                error.text()->0,
                context@,
            ) && contains_text(error.text()->0, why@) && contains_text(error.text()->0, body@),
            InventoryError::MissingOutAmount { quote } => contains_text(error.text()->0, quote@),
            InventoryError::OutAmountNotU64 { error: why } => contains_text(error.text()->0, why@),
            InventoryError::StillShort { out, min_out } => contains_text(
                error.text()->0,
                decimal(out as nat),
            ) && contains_text(error.text()->0, decimal(min_out as nat)),
            InventoryError::MissingSwapTransaction { response } => contains_text(
                error.text()->0,
                response@,
            ),
            InventoryError::Base64(why) => contains_text(error.text()->0, why@),
            InventoryError::Deserialize(why) => contains_text(error.text()->0, why@),
            InventoryError::Sign(why) => error.text() == Some(why@),
            _ => true,
        },
{
    match error {
        InventoryError::ZeroInput { min_out, output_mint } => {
            let lead = "computed zero swap_mint input for buying "@;
            let n = decimal(min_out as nat);
            let mint = base58_text(output_mint);
            lemma_stands_between(error.text()->0, lead, n, " "@ + mint);
            lemma_stands_between(error.text()->0, lead + n + " "@, mint, Seq::empty());
        },
        InventoryError::Status { context, status, body } => {
            let lead = context@ + " failed ("@;
            let close = "): "@;
            lemma_stands_between(
                error.text()->0,
                Seq::empty(),
                context@,
                " failed ("@ + status@ + close + body@,
            );
            lemma_stands_between(error.text()->0, lead, status@, close + body@);
            lemma_stands_between(error.text()->0, lead + status@ + close, body@, Seq::empty());
        },
        InventoryError::InvalidJson { context, error: why, body } => {
            let lead = context@ + ": invalid JSON ("@;
            let close = "): "@;
            lemma_stands_between(
                error.text()->0,
                Seq::empty(),
                context@,
                ": invalid JSON ("@ + why@ + close + body@,
            );
            lemma_stands_between(error.text()->0, lead, why@, close + body@);
            lemma_stands_between(error.text()->0, lead + why@ + close, body@, Seq::empty());
        },
        InventoryError::MissingOutAmount { quote } => {
            lemma_stands_between(
                error.text()->0,
                "Jupiter quote missing outAmount: "@,
                quote@,
                Seq::empty(),
            );
        },
        InventoryError::OutAmountNotU64 { error: why } => {
            lemma_stands_between(
                error.text()->0,
                "Jupiter quote outAmount not a u64: "@,
                why@,
                Seq::empty(),
            );
        },
        InventoryError::StillShort { out, min_out } => {
            let lead = "Jupiter ExactIn quote still short after re-quote: out "@;
            let mid = " < needed "@;
            let a = decimal(out as nat);
            let b = decimal(min_out as nat);
            lemma_stands_between(error.text()->0, lead, a, mid + b);
            lemma_stands_between(error.text()->0, lead + a + mid, b, Seq::empty());
        },
        InventoryError::MissingSwapTransaction { response } => {
            lemma_stands_between(
                error.text()->0,
                "Jupiter swap response missing swapTransaction: "@,
                response@,
                Seq::empty(),
            );
        },
        InventoryError::Base64(why) => {
            lemma_stands_between(
                error.text()->0,
                "Failed to base64-decode Jupiter swap tx: "@,
                why@,
                Seq::empty(),
            );
        },
        InventoryError::Deserialize(why) => {
            lemma_stands_between(
                error.text()->0,
                "Failed to deserialize Jupiter swap tx: "@,
                why@,
                Seq::empty(),
            );
        },
        _ => {},
    }
}

proof fn lemma_stands_between(text: Seq<char>, before: Seq<char>, part: Seq<char>, after: Seq<char>)
    requires
        text =~= before + part + after,
    ensures
        contains_text(text, part),
{
    let at = before.len() as int;
    assert(text.subrange(at, at + part.len()) =~= part);
    assert(occurs_at(text, part, at));
}

/// Whatever comes in, a purchase stays one of its token and its amount, and an assembly one of its
/// mint and its amounts.
pub proof fn law_a_run_keeps_what_it_is_about<E>(
    strategy: &InventoryStrategy,
    buy: BuyRun<E>,
    buy_event: BuyEvent<E>,
    next_buy: BuyRun<E>,
    r: AssembleRun<E>,
    event: AssembleEvent<E>,
    next: AssembleRun<E>,
)
    requires
        call_ensures(InventoryStrategy::buy_step::<E>, (strategy, buy, buy_event), next_buy),
        call_ensures(InventoryStrategy::assemble_step::<E>, (strategy, r, event), next),
    ensures
        next_buy.output_mint == buy.output_mint,
        next_buy.min_out == buy.min_out,
        next.liab_mint == r.liab_mint,
        next.asset_amount == r.asset_amount,
        next.repay_amount == r.repay_amount,
        r.phase is Buying && next.phase is Buying ==> next.phase->Buying_0.output_mint
            == r.phase->Buying_0.output_mint && next.phase->Buying_0.min_out
            == r.phase->Buying_0.min_out,
{
}

}
