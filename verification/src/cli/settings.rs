//! The settings of the lookup table tools, as they stand in the environment.

use vstd::prelude::*;

use crate::pubkey::{base58_key, key_spelled, Pubkey};
use crate::text::{
    all_white, copy, decimal, is_white_space, joined, law_slashes_are_taken_off,
    law_trimming_bares_a_text, trim, trim_end_slashes, trim_slashes, trimmed,
};

verus! {

/// What the tools take from the environment. A variable that is not set is `None`.
#[derive(Debug)]
pub struct Environment {
    pub rpc_url: Option<String>,
    pub yellowstone_endpoint: Option<String>,
    pub yellowstone_x_token: Option<String>,
    pub wallet_keypair: Option<String>,
    pub marginfi_group_key: Option<String>,
}

/// The settings.
#[derive(Debug)]
pub struct Settings {
    pub rpc_url: String,
    pub wallet_keypair_bytes: Vec<u8>,
    pub signer: Pubkey,
    pub marginfi_group_key: Pubkey,
}

/// Why there are no settings.
#[derive(Clone, Copy, Debug, PartialEq, Eq, Structural)]
pub enum SettingsError {
    /// Neither `RPC_URL` nor `YELLOWSTONE_ENDPOINT` is set.
    NoEndpoint,
    /// `WALLET_KEYPAIR` is not set.
    NoWallet,
    /// `WALLET_KEYPAIR` is not a JSON array of bytes.
    InvalidWalletJson,
    /// The bytes of `WALLET_KEYPAIR` are no key pair.
    InvalidKeypair,
    /// `MARGINFI_GROUP_KEY` is not set.
    NoGroup,
    /// `MARGINFI_GROUP_KEY` is not an address.
    InvalidGroup,
}

// ── The RPC URL ──────────────────────────────────────────────────────────────

/// The URL that an endpoint and a token make: the endpoint without the slashes at its end, and
/// behind it the token, without the white space around it, unless it is blank.
pub open spec fn endpoint_url(endpoint: Seq<char>, token: Seq<char>) -> Seq<char> {
    if trimmed(token).len() == 0 {
        trim_end_slashes(endpoint)
    } else {
        trim_end_slashes(endpoint).push('/') + trimmed(token)
    }
}

/// The RPC URL that the environment gives.
pub open spec fn rpc_url_of(env: Environment) -> Option<Seq<char>> {
    match (env.rpc_url, env.yellowstone_endpoint) {
        (Some(url), _) => Some(url@),
        (None, Some(endpoint)) => Some(
            endpoint_url(
                endpoint@,
                match env.yellowstone_x_token {
                    Some(token) => token@,
                    None => Seq::empty(),
                },
            ),
        ),
        (None, None) => None,
    }
}

/// The RPC URL that the environment gives: `RPC_URL`, or else one made of the endpoint and its
/// token.
pub fn rpc_url(env: &Environment) -> (url: Option<String>)
    ensures
        match url {
            Some(url) => rpc_url_of(*env) == Some(url@),
            None => rpc_url_of(*env) is None,
        },
{
    if let Some(url) = &env.rpc_url {
        return Some(copy(url.as_str()));
    }
    match &env.yellowstone_endpoint {
        Some(endpoint) => {
            let mut url = trim_slashes(endpoint.as_str());
            let token = match &env.yellowstone_x_token {
                Some(token) => trim(token.as_str()),
                None => {
                    let none = String::new();
                    assert(trimmed(none@) =~= none@);
                    none
                },
            };
            if token.as_str().is_empty() {
                Some(url)
            } else {
                url.push('/');
                url.append(token.as_str());
                Some(url)
            }
        },
        None => None,
    }
}

// ── The wallet ───────────────────────────────────────────────────────────────

/// What `serde_json::from_str::<Vec<u8>>` makes of a text, if it is an array of bytes.
pub uninterp spec fn json_byte_array(text: Seq<char>) -> Option<Seq<u8>>;

/// The signer of a key pair, if `Keypair::try_from` of the Solana SDK accepts its bytes.
pub uninterp spec fn keypair_signer(bytes: Seq<u8>) -> Option<Pubkey>;

/// The numbers of a list of bytes in decimal.
pub open spec fn byte_texts(bytes: Seq<u8>) -> Seq<Seq<char>> {
    bytes.map_values(|b: u8| decimal(b as nat))
}

/// A list of bytes as a JSON array, without white space.
pub open spec fn json_of_bytes(bytes: Seq<u8>) -> Seq<char> {
    seq!['['] + joined(byte_texts(bytes), ',') + seq![']']
}

/// `serde_json::from_str::<Vec<u8>>`: the bytes, where the text is a JSON array of them.
#[verifier::external_body]
fn bytes_from_json(text: &str) -> (bytes: Option<Vec<u8>>)
    ensures
        match bytes {
            Some(bytes) => json_byte_array(text@) == Some(bytes@),
            None => json_byte_array(text@) is None && bytes is None,
        },
{
    serde_json::from_str(text).ok()
}

/// `serde_json::to_string` of a list of bytes: an array of decimal numbers without white space.
/// It reads back as the same bytes.
#[verifier::external_body]
fn bytes_to_json(bytes: &Vec<u8>) -> (text: String)
    ensures
        text@ == json_of_bytes(bytes@),
        json_byte_array(text@) == Some(bytes@),
{
    serde_json::to_string(bytes).unwrap()
}

/// `Keypair::try_from` of the Solana SDK on bytes, and the address of the key pair's signer.
#[verifier::external_body]
fn signer_of(bytes: &Vec<u8>) -> (signer: Option<Pubkey>)
    ensures
        signer == keypair_signer(bytes@),
{
    solana_sdk::signature::Keypair::try_from(bytes.as_slice()).ok().map(
        |keypair| Pubkey { bytes: solana_sdk::signer::Signer::pubkey(&keypair).to_bytes() },
    )
}

/// The address of a key pair's signer, if the bytes are a key pair.
pub fn wallet_pubkey(keypair_bytes: &Vec<u8>) -> (signer: Option<Pubkey>)
    ensures
        signer == keypair_signer(keypair_bytes@),
{
    signer_of(keypair_bytes)
}

/// The text of a wallet file: the key pair as a JSON array, which is what the Solana command
/// line tool reads.
pub fn wallet_json(keypair_bytes: &Vec<u8>) -> (text: String)
    ensures
        text@ == json_of_bytes(keypair_bytes@),
        json_byte_array(text@) == Some(keypair_bytes@),
{
    bytes_to_json(keypair_bytes)
}

// ── All of them ──────────────────────────────────────────────────────────────

/// The first error in the environment, if there is one.
pub open spec fn settings_error(env: Environment) -> Option<SettingsError> {
    if rpc_url_of(env) is None {
        Some(SettingsError::NoEndpoint)
    } else if env.wallet_keypair is None {
        Some(SettingsError::NoWallet)
    } else if json_byte_array(env.wallet_keypair->0@) is None {
        Some(SettingsError::InvalidWalletJson)
    } else if keypair_signer(json_byte_array(env.wallet_keypair->0@)->0) is None {
        Some(SettingsError::InvalidKeypair)
    } else if env.marginfi_group_key is None {
        Some(SettingsError::NoGroup)
    } else if key_spelled(env.marginfi_group_key->0@) is None {
        Some(SettingsError::InvalidGroup)
    } else {
        None
    }
}

/// The settings that the environment gives, or the first error in it.
pub fn read_settings(env: &Environment) -> (r: Result<Settings, SettingsError>)
    ensures
        match r {
            Ok(s) => settings_error(*env) is None && rpc_url_of(*env) == Some(s.rpc_url@)
                && json_byte_array(env.wallet_keypair->0@) == Some(s.wallet_keypair_bytes@)
                && keypair_signer(s.wallet_keypair_bytes@) == Some(s.signer) && key_spelled(
                env.marginfi_group_key->0@,
            ) == Some(s.marginfi_group_key),
            Err(e) => settings_error(*env) == Some(e),
        },
{
    let rpc_url = match rpc_url(env) {
        Some(url) => url,
        None => {
            return Err(SettingsError::NoEndpoint);
        },
    };
    let wallet_keypair_bytes = match &env.wallet_keypair {
        None => {
            return Err(SettingsError::NoWallet);
        },
        Some(json) => match bytes_from_json(json.as_str()) {
            None => {
                return Err(SettingsError::InvalidWalletJson);
            },
            Some(bytes) => bytes,
        },
    };
    let signer = match signer_of(&wallet_keypair_bytes) {
        None => {
            return Err(SettingsError::InvalidKeypair);
        },
        Some(signer) => signer,
    };
    match &env.marginfi_group_key {
        None => Err(SettingsError::NoGroup),
        Some(text) => match Pubkey::from_text(text.as_str()) {
            Err(_) => Err(SettingsError::InvalidGroup),
            Ok(marginfi_group_key) => Ok(
                Settings { rpc_url, wallet_keypair_bytes, signer, marginfi_group_key },
            ),
        },
    }
}

// ── Laws ─────────────────────────────────────────────────────────────────────

/// `RPC_URL` is taken as it is, whatever else is set. Without it the URL is the endpoint without
/// the slashes at its end and, where there is a token, a slash and the token without the white
/// space around it. A token that is blank counts as none.
pub proof fn law_the_url_is_the_endpoint_and_its_token(
    env: Environment,
    endpoint: Seq<char>,
    slashes: nat,
    before: Seq<char>,
    token: Seq<char>,
    after: Seq<char>,
)
    requires
        endpoint.len() > 0 ==> endpoint.last() != '/',
        all_white(before),
        all_white(after),
        token.len() > 0 ==> !is_white_space(token[0]) && !is_white_space(token.last()),
    ensures
        env.rpc_url matches Some(url) ==> rpc_url_of(env) == Some(url@),
        env.rpc_url is None && env.yellowstone_endpoint is None ==> rpc_url_of(env) is None,
        env.rpc_url is None && (env.yellowstone_endpoint matches Some(e) && e@ == endpoint
            + Seq::new(slashes, |i: int| '/')) && (env.yellowstone_x_token matches Some(t) && t@
            == before + token + after) ==> rpc_url_of(env) == Some(
            if token.len() > 0 {
                endpoint + seq!['/'] + token
            } else {
                endpoint
            },
        ),
        env.rpc_url is None && (env.yellowstone_endpoint matches Some(e) && e@ == endpoint
            + Seq::new(slashes, |i: int| '/')) && env.yellowstone_x_token is None ==> rpc_url_of(
            env,
        ) == Some(endpoint),
{
    law_slashes_are_taken_off(endpoint, slashes);
    law_trimming_bares_a_text(before, token, after);
    let none = Seq::<char>::empty();
    law_trimming_bares_a_text(none, none, none);
    assert(none + none + none =~= none);
    assert(endpoint.push('/') + token =~= endpoint + seq!['/'] + token);
}

/// What is wrong with the environment is told in order: the endpoint first, then the wallet, then
/// the group. Where nothing is, the settings are what the variables say.
pub proof fn law_the_first_error_is_told(env: &Environment, r: Result<Settings, SettingsError>)
    requires
        call_ensures(read_settings, (env,), r),
    ensures
        ({
            let no_endpoint = env.rpc_url is None && env.yellowstone_endpoint is None;
            match r {
                Err(SettingsError::NoEndpoint) => no_endpoint,
                Err(SettingsError::NoWallet) => !no_endpoint && env.wallet_keypair is None,
                Err(SettingsError::InvalidWalletJson) => !no_endpoint && (
                env.wallet_keypair matches Some(text) && json_byte_array(text@) is None),
                Err(SettingsError::InvalidKeypair) => !no_endpoint && (
                env.wallet_keypair matches Some(text) && (json_byte_array(text@) matches Some(bytes)
                    && keypair_signer(bytes) is None)),
                Err(e) => !no_endpoint && (env.wallet_keypair matches Some(text) && (
                json_byte_array(text@) matches Some(bytes) && keypair_signer(bytes) is Some)) && (
                if e == SettingsError::NoGroup {
                    env.marginfi_group_key is None
                } else {
                    e == SettingsError::InvalidGroup && (env.marginfi_group_key matches Some(text)
                        && base58_key(text@) is Err)
                }),
                Ok(s) => {
                    &&& rpc_url_of(*env) == Some(s.rpc_url@)
                    &&& env.wallet_keypair matches Some(text) && json_byte_array(text@) == Some(
                        s.wallet_keypair_bytes@,
                    )
                    &&& keypair_signer(s.wallet_keypair_bytes@) == Some(s.signer)
                    &&& env.marginfi_group_key matches Some(text) && base58_key(text@) == Ok::<
                        Pubkey,
                        Seq<char>,
                    >(s.marginfi_group_key)
                },
            }
        }),
{
}

/// The URL is found, or not, as modelled.
pub proof fn law_the_url_is_found_as_modelled(env: &Environment, url: Option<String>)
    requires
        call_ensures(rpc_url, (env,), url),
    ensures
        match url {
            Some(url) => rpc_url_of(*env) == Some(url@),
            None => env.rpc_url is None && env.yellowstone_endpoint is None,
        },
{
}

}
