use eva01::cli::settings::{
    read_settings, rpc_url, wallet_json, wallet_pubkey, Environment, SettingsError,
};
use solana_sdk::signer::Signer;

fn environment() -> Environment {
    let wallet = solana_sdk::signer::keypair::keypair_from_seed(&[7; 32]).unwrap();
    Environment {
        rpc_url: Some("http://rpc".to_string()),
        yellowstone_endpoint: None,
        yellowstone_x_token: None,
        wallet_keypair: Some(serde_json::to_string(&wallet.to_bytes().to_vec()).unwrap()),
        marginfi_group_key: Some("4qp6Fx6tnZkY5Wropq9wUYgtFxXKwE6viZxFHg3rdAG8".to_string()),
    }
}

fn with_endpoint(endpoint: &str, token: Option<&str>) -> Environment {
    let mut env = environment();
    env.rpc_url = None;
    env.yellowstone_endpoint = Some(endpoint.to_string());
    env.yellowstone_x_token = token.map(|t| t.to_string());
    env
}

#[test]
fn the_rpc_url_comes_from_either_variable() {
    assert_eq!(rpc_url(&environment()).unwrap(), "http://rpc");
    assert_eq!(rpc_url(&with_endpoint("http://y//", None)).unwrap(), "http://y");
    assert_eq!(rpc_url(&with_endpoint("http://y/", Some(" \t"))).unwrap(), "http://y");
    assert_eq!(rpc_url(&with_endpoint("http://y/", Some(" abc "))).unwrap(), "http://y/abc");
    let mut both = with_endpoint("http://y", None);
    both.rpc_url = Some("http://rpc/".to_string());
    assert_eq!(rpc_url(&both).unwrap(), "http://rpc/");
}

#[test]
fn settings_are_read() {
    let s = read_settings(&environment()).unwrap();
    let wallet = solana_sdk::signer::keypair::keypair_from_seed(&[7; 32]).unwrap();
    assert_eq!(s.rpc_url, "http://rpc");
    assert_eq!(s.wallet_keypair_bytes, wallet.to_bytes().to_vec());
    assert_eq!(s.signer.bytes, wallet.pubkey().to_bytes());
    assert_eq!(s.marginfi_group_key.to_text(), "4qp6Fx6tnZkY5Wropq9wUYgtFxXKwE6viZxFHg3rdAG8");
}

#[test]
fn the_first_error_is_reported() {
    let error = |change: fn(&mut Environment)| {
        let mut env = environment();
        change(&mut env);
        read_settings(&env).unwrap_err()
    };
    assert_eq!(error(|e| e.rpc_url = None), SettingsError::NoEndpoint);
    assert_eq!(error(|e| e.wallet_keypair = None), SettingsError::NoWallet);
    assert_eq!(
        error(|e| e.wallet_keypair = Some("[1,2,256]".to_string())),
        SettingsError::InvalidWalletJson
    );
    assert_eq!(
        error(|e| e.wallet_keypair = Some("[1,2,3]".to_string())),
        SettingsError::InvalidKeypair
    );
    assert_eq!(error(|e| e.marginfi_group_key = None), SettingsError::NoGroup);
    assert_eq!(
        error(|e| e.marginfi_group_key = Some("0OIl".to_string())),
        SettingsError::InvalidGroup
    );
    let two = |e: &mut Environment| {
        e.wallet_keypair = None;
        e.marginfi_group_key = None;
    };
    assert_eq!(error(two), SettingsError::NoWallet);
}

#[test]
fn a_wallet_file_reads_back() {
    let bytes: Vec<u8> = (0..=255).collect();
    let text = wallet_json(&bytes);
    assert!(text.starts_with("[0,1,2,3,"));
    assert!(text.ends_with(",254,255]"));
    assert_eq!(serde_json::from_str::<Vec<u8>>(&text).unwrap(), bytes);
    assert_eq!(wallet_json(&vec![]), "[]");
}

#[test]
fn the_signer_of_a_key_pair() {
    let wallet = solana_sdk::signer::keypair::keypair_from_seed(&[8; 32]).unwrap();
    let mut bytes = wallet.to_bytes().to_vec();
    assert_eq!(wallet_pubkey(&bytes).unwrap().bytes, wallet.pubkey().to_bytes());
    bytes[40] ^= 1;
    assert!(wallet_pubkey(&bytes).is_none());
    assert!(wallet_pubkey(&vec![]).is_none());
}
