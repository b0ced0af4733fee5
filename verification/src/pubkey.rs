//! Account addresses.
//!
//! An address is 32 bytes. How it is printed and read, and which addresses are derived from it,
//! is what the Solana crates compute; those results enter the contracts of this library by name.

use vstd::prelude::*;

use crate::text::is_base58;

verus! {

/// An account address.
#[derive(Clone, Copy, Eq, Debug, Hash)]
pub struct Pubkey {
    pub bytes: [u8; 32],
}

impl PartialEq for Pubkey {
    fn eq(&self, other: &Pubkey) -> (same: bool) {
        let mut i: usize = 0;
        while i < 32
            invariant
                i <= 32,
                forall|j: int| 0 <= j < i ==> self.bytes@[j] == other.bytes@[j],
            decreases 32 - i,
        {
            if self.bytes[i] != other.bytes[i] {
                return false;
            }
            i += 1;
        }
        assert(self.bytes =~= other.bytes);
        true
    }
}

impl vstd::std_specs::cmp::PartialEqSpecImpl for Pubkey {
    open spec fn obeys_eq_spec() -> bool {
        true
    }

    open spec fn eq_spec(&self, other: &Pubkey) -> bool {
        *self == *other
    }
}

/// The address whose bytes are all zero. It marks a key slot that is not in use.
pub open spec fn is_unset(key: Pubkey) -> bool {
    forall|i: int| 0 <= i < 32 ==> #[trigger] key.bytes@[i] == 0
}

/// The keys of `keys` that are in use, in order.
pub open spec fn keys_in_use(keys: Seq<Pubkey>) -> Seq<Pubkey> {
    keys.filter(|k: Pubkey| !is_unset(k))
}

impl Pubkey {
    /// An address from its bytes.
    pub fn new_from_array(bytes: [u8; 32]) -> (key: Pubkey)
        ensures
            key.bytes == bytes,
    {
        Pubkey { bytes }
    }

    /// Whether this is the all-zero address.
    pub fn is_unset(&self) -> (unset: bool)
        ensures
            unset == is_unset(*self),
    {
        let mut i: usize = 0;
        while i < 32
            invariant
                i <= 32,
                forall|j: int| 0 <= j < i ==> #[trigger] self.bytes@[j] == 0,
            decreases 32 - i,
        {
            if self.bytes[i] != 0 {
                return false;
            }
            i += 1;
        }
        true
    }
}

/// Appends to `out` those of `keys` that are in use.
pub fn push_keys_in_use(out: &mut Vec<Pubkey>, keys: &[Pubkey])
    ensures
        final(out)@ == old(out)@ + keys_in_use(keys@),
{
    let mut i: usize = 0;
    assert(keys_in_use(keys@.take(0)) =~= Seq::empty());
    assert(out@ =~= old(out)@ + keys_in_use(keys@.take(0)));
    while i < keys.len()
        invariant
            i <= keys@.len(),
            out@ == old(out)@ + keys_in_use(keys@.take(i as int)),
        decreases keys@.len() - i,
    {
        let ghost in_use = |k: Pubkey| !is_unset(k);
        proof {
            assert(keys@.take(i + 1) =~= keys@.take(i as int).push(keys@[i as int]));
            keys@.take(i as int).lemma_filter_push(keys@[i as int], in_use);
        }
        if !keys[i].is_unset() {
            out.push(keys[i]);
        }
        i += 1;
        assert(out@ =~= old(out)@ + keys_in_use(keys@.take(i as int)));
    }
    assert(keys@.take(i as int) =~= keys@);
}

// ── Printing and reading ─────────────────────────────────────────────────────

/// The printed form of an address: what `Display` of `solana_sdk::pubkey::Pubkey` writes.
pub uninterp spec fn base58_text(key: Pubkey) -> Seq<char>;

/// What `FromStr` of `solana_sdk::pubkey::Pubkey` makes of a text: an address, or an error with
/// its own text.
pub uninterp spec fn base58_key(text: Seq<char>) -> Result<Pubkey, Seq<char>>;

/// The address that a text spells, if it spells one.
pub open spec fn key_spelled(text: Seq<char>) -> Option<Pubkey> {
    match base58_key(text) {
        Ok(key) => Some(key),
        Err(_) => None,
    }
}

/// `solana_sdk::pubkey::Pubkey` to text. Its `Display` writes the base58 encoding of the 32
/// bytes, which is not empty, is made of base58 characters, and reads back as the same address.
#[verifier::external_body]
fn encode_base58(key: &Pubkey) -> (printed: String)
    ensures
        printed@ == base58_text(*key),
        is_base58(printed@),
        key_spelled(printed@) == Some(*key),
{
    solana_sdk::pubkey::Pubkey::new_from_array(key.bytes).to_string()
}

/// `solana_sdk::pubkey::Pubkey` from text, by its `FromStr`: the address, or the text of its
/// error. The empty text spells no address.
#[verifier::external_body]
fn decode_base58(text: &str) -> (key: Result<Pubkey, String>)
    ensures
        match key {
            Ok(k) => base58_key(text@) matches Ok(known) && known == k,
            Err(e) => base58_key(text@) matches Err(known) && known == e@,
        },
        key is Ok ==> text@.len() > 0,
{
    match text.parse::<solana_sdk::pubkey::Pubkey>() {
        Ok(key) => Ok(Pubkey { bytes: key.to_bytes() }),
        Err(error) => Err(error.to_string()),
    }
}

impl Pubkey {
    /// The printed form. It reads back as the same address.
    pub fn to_text(&self) -> (printed: String)
        ensures
            printed@ == base58_text(*self),
            is_base58(printed@),
            key_spelled(printed@) == Some(*self),
    {
        encode_base58(self)
    }

    /// The address that a text spells, or the text of the error.
    pub fn from_text(text: &str) -> (key: Result<Pubkey, String>)
        ensures
            match key {
                Ok(k) => base58_key(text@) matches Ok(known) && known == k,
                Err(e) => base58_key(text@) matches Err(known) && known == e@,
            },
            key is Ok ==> text@.len() > 0,
    {
        decode_base58(text)
    }
}

// ── Derived addresses ────────────────────────────────────────────────────────

/// The associated token account program.
pub const ASSOCIATED_TOKEN_PROGRAM: [u8; 32] = [
    140, 151, 37, 143, 78, 36, 137, 241, 187, 61, 16, 41, 20, 142, 13, 131, 11, 90, 19, 153, 218,
    255, 16, 132, 4, 142, 123, 216, 219, 233, 248, 89,
];

/// What `Pubkey::try_find_program_address` of the Solana SDK finds: the address that a program
/// derives from seeds, and its bump seed.
pub uninterp spec fn program_address(seeds: Seq<Seq<u8>>, program: Pubkey) -> Option<(Pubkey, u8)>;

/// The bytes that each of a list of seeds holds.
pub open spec fn seed_views(seeds: Seq<Vec<u8>>) -> Seq<Seq<u8>> {
    seeds.map_values(|seed: Vec<u8>| seed@)
}

/// `Pubkey::try_find_program_address` of the Solana SDK.
#[verifier::external_body]
fn try_find_program_address(seeds: &Vec<Vec<u8>>, program: &Pubkey) -> (found: Option<
    (Pubkey, u8),
>)
    ensures
        found == program_address(seed_views(seeds@), *program),
{
    let seeds: Vec<&[u8]> = seeds.iter().map(|seed| seed.as_slice()).collect();
    let program = solana_sdk::pubkey::Pubkey::new_from_array(program.bytes);
    solana_sdk::pubkey::Pubkey::try_find_program_address(&seeds, &program).map(
        |(address, bump)| (Pubkey { bytes: address.to_bytes() }, bump),
    )
}

/// The seeds of an associated token account.
pub open spec fn token_account_seeds(wallet: Pubkey, mint: Pubkey, token_program: Pubkey) -> Seq<
    Seq<u8>,
> {
    seq![wallet.bytes@, token_program.bytes@, mint.bytes@]
}

/// The account in which a wallet holds its tokens of a mint. There is one for all but a
/// negligible part of all keys.
pub open spec fn token_account(wallet: Pubkey, mint: Pubkey, token_program: Pubkey) -> Option<
    Pubkey,
> {
    match program_address(
        token_account_seeds(wallet, mint, token_program),
        Pubkey { bytes: ASSOCIATED_TOKEN_PROGRAM },
    ) {
        Some((address, _)) => Some(address),
        None => None,
    }
}

/// `get_associated_token_address_with_program_id` of `anchor_spl`: the address that the
/// associated token account program derives from the wallet, the token program and the mint. It
/// panics where there is none.
#[verifier::external_body]
fn associated_token_address(wallet: &Pubkey, mint: &Pubkey, token_program: &Pubkey) -> (
address: Pubkey)
    requires
        token_account(*wallet, *mint, *token_program) is Some,
    ensures
        token_account(*wallet, *mint, *token_program) == Some(address),
{
    let address = anchor_spl::associated_token::get_associated_token_address_with_program_id(
        &solana_sdk::pubkey::Pubkey::new_from_array(wallet.bytes),
        &solana_sdk::pubkey::Pubkey::new_from_array(mint.bytes),
        &solana_sdk::pubkey::Pubkey::new_from_array(token_program.bytes),
    );
    Pubkey { bytes: address.to_bytes() }
}

impl Pubkey {
    /// The bytes of the address.
    pub fn to_vec(&self) -> (bytes: Vec<u8>)
        ensures
            bytes@ == self.bytes@,
    {
        let mut bytes: Vec<u8> = Vec::new();
        let mut i: usize = 0;
        while i < 32
            invariant
                i <= 32,
                bytes@ == self.bytes@.take(i as int),
            decreases 32 - i,
        {
            bytes.push(self.bytes[i]);
            i += 1;
            assert(bytes@ =~= self.bytes@.take(i as int));
        }
        assert(bytes@ =~= self.bytes@);
        bytes
    }

    /// The address that a program derives from seeds, and its bump seed.
    pub fn find_program_address(seeds: &Vec<Vec<u8>>, program: &Pubkey) -> (found: Option<
        (Pubkey, u8),
    >)
        ensures
            found == program_address(seed_views(seeds@), *program),
    {
        try_find_program_address(seeds, program)
    }

    /// The account in which this wallet holds its tokens of a mint.
    pub fn token_account(&self, mint: &Pubkey, token_program: &Pubkey) -> (address: Option<Pubkey>)
        ensures
            address == token_account(*self, *mint, *token_program),
    {
        let mut seeds: Vec<Vec<u8>> = Vec::new();
        seeds.push(self.to_vec());
        seeds.push(token_program.to_vec());
        seeds.push(mint.to_vec());
        assert(seed_views(seeds@) =~= token_account_seeds(*self, *mint, *token_program));
        let program = Pubkey { bytes: ASSOCIATED_TOKEN_PROGRAM };
        match try_find_program_address(&seeds, &program) {
            Some(_) => Some(associated_token_address(self, mint, token_program)),
            None => None,
        }
    }
}

// ── Laws ─────────────────────────────────────────────────────────────────────

/// A key is in use where one of its bytes is not zero. Those in use are kept in their order, and
/// the others are left out.
pub proof fn law_keys_in_use_are_kept_in_order(keys: Seq<Pubkey>, key: Pubkey, k: Pubkey)
    ensures
        keys_in_use(Seq::empty()) == Seq::<Pubkey>::empty(),
        keys_in_use(keys.push(key)) == if exists|i: int| 0 <= i < 32 && #[trigger] key.bytes@[i]
            != 0 {
            keys_in_use(keys).push(key)
        } else {
            keys_in_use(keys)
        },
        keys_in_use(keys).contains(k) <==> keys.contains(k) && exists|i: int|
            0 <= i < 32 && #[trigger] k.bytes@[i] != 0,
    decreases keys.len(),
{
    let in_use = |k: Pubkey| !is_unset(k);
    assert(keys_in_use(Seq::empty()) =~= Seq::<Pubkey>::empty());
    keys.lemma_filter_push(key, in_use);
    if keys.len() == 0 {
        assert(keys =~= Seq::<Pubkey>::empty());
    } else {
        let front = keys.drop_last();
        law_keys_in_use_are_kept_in_order(front, keys.last(), k);
        assert(front.push(keys.last()) =~= keys);
        let before = keys_in_use(front);
        assert(keys.contains(k) <==> front.contains(k) || k == keys.last()) by {
            if front.contains(k) {
                let i = choose|i: int| 0 <= i < front.len() && front[i] == k;
                assert(keys[i] == k);
            }
            assert(keys[keys.len() - 1] == keys.last());
        }
        if in_use(keys.last()) {
            let after = before.push(keys.last());
            assert(after[before.len() as int] == keys.last());
            if before.contains(k) {
                let i = choose|i: int| 0 <= i < before.len() && before[i] == k;
                assert(after[i] == k);
            }
        }
    }
}

/// The token account of a wallet is the address that the associated token account program derives
/// from the wallet, the token program and the mint, in this order.
pub proof fn law_token_accounts_are_derived(
    wallet: &Pubkey,
    mint: &Pubkey,
    token_program: &Pubkey,
    seeds: Seq<Seq<u8>>,
    address: Option<Pubkey>,
)
    requires
        call_ensures(Pubkey::token_account, (wallet, mint, token_program), address),
        seeds.len() == 3,
        seeds[0] == wallet.bytes@,
        seeds[1] == token_program.bytes@,
        seeds[2] == mint.bytes@,
    ensures
        match program_address(seeds, Pubkey { bytes: ASSOCIATED_TOKEN_PROGRAM }) {
            Some((found, _)) => address == Some(found),
            None => address is None,
        },
{
    assert(seeds =~= token_account_seeds(*wallet, *mint, *token_program));
}

}
