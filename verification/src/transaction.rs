//! Transactions, as bytes.

use solana_sdk::instruction::{self, AccountMeta};
use solana_sdk::message::{v0, AddressLookupTableAccount};
use vstd::prelude::*;

use crate::pubkey::Pubkey;

verus! {

// ── Instructions ─────────────────────────────────────────────────────────────

/// An account that an instruction works on.
#[derive(Clone, Copy, Debug)]
pub struct InstructionAccount {
    pub key: Pubkey,
    pub is_signer: bool,
    pub is_writable: bool,
}

/// A call of a program.
#[derive(Debug)]
pub struct Instruction {
    pub program_id: Pubkey,
    pub accounts: Vec<InstructionAccount>,
    pub data: Vec<u8>,
}

/// What an instruction is.
pub struct InstructionState {
    pub program_id: Pubkey,
    pub accounts: Seq<InstructionAccount>,
    pub data: Seq<u8>,
}

impl View for Instruction {
    type V = InstructionState;

    open spec fn view(&self) -> InstructionState {
        InstructionState {
            program_id: self.program_id,
            accounts: self.accounts@,
            data: self.data@,
        }
    }
}

/// A lookup table: its address, and the addresses that it holds.
#[derive(Debug)]
pub struct LookupTable {
    pub key: Pubkey,
    pub addresses: Vec<Pubkey>,
}

impl View for LookupTable {
    type V = (Pubkey, Seq<Pubkey>);

    open spec fn view(&self) -> (Pubkey, Seq<Pubkey>) {
        (self.key, self.addresses@)
    }
}

/// What instructions are.
pub open spec fn instruction_views(instructions: Seq<Instruction>) -> Seq<InstructionState> {
    instructions.map_values(|ix: Instruction| ix@)
}

/// What lookup tables are.
pub open spec fn table_views(tables: Seq<LookupTable>) -> Seq<(Pubkey, Seq<Pubkey>)> {
    tables.map_values(|t: LookupTable| t@)
}

/// The longest list that a message can hold.
pub const LIST_MAX: usize = 65535;

/// The lists of the instructions are such as a message can hold.
pub open spec fn encodable(instructions: Seq<InstructionState>) -> bool {
    &&& instructions.len() <= LIST_MAX
    &&& forall|i: int|
        0 <= i < instructions.len() ==> (#[trigger] instructions[i]).accounts.len() <= LIST_MAX
            && instructions[i].data.len() <= LIST_MAX
}

/// Whether the lists of the instructions are such as a message can hold.
pub fn is_encodable(instructions: &Vec<Instruction>) -> (ok: bool)
    ensures
        ok == encodable(instruction_views(instructions@)),
{
    let ghost views = instruction_views(instructions@);
    if instructions.len() > LIST_MAX {
        return false;
    }
    let mut i: usize = 0;
    while i < instructions.len()
        invariant
            i <= instructions@.len(),
            views == instruction_views(instructions@),
            forall|j: int|
                0 <= j < i ==> (#[trigger] views[j]).accounts.len() <= LIST_MAX
                    && views[j].data.len() <= LIST_MAX,
        decreases instructions@.len() - i,
    {
        if instructions[i].accounts.len() > LIST_MAX || instructions[i].data.len() > LIST_MAX {
            assert(views[i as int] == instructions@[i as int]@);
            return false;
        }
        i += 1;
    }
    true
}

// ── Messages and signatures ──────────────────────────────────────────────────

/// The message, as bytes, that `v0::Message::try_compile` of the Solana SDK makes of a payer,
/// instructions, lookup tables and a blockhash, or an error with its own text.
pub uninterp spec fn compiled_message(
    payer: Pubkey,
    instructions: Seq<InstructionState>,
    tables: Seq<(Pubkey, Seq<Pubkey>)>,
    blockhash: Seq<u8>,
) -> Result<Seq<u8>, Seq<char>>;

/// The message of a transaction, both as bytes: what `bincode` makes of them, or an error with
/// its own text.
pub uninterp spec fn transaction_message(tx: Seq<u8>) -> Result<Seq<u8>, Seq<char>>;

/// The transaction, as bytes, that `VersionedTransaction::try_new` of the Solana SDK makes of a
/// message and a key pair, or an error with its own text.
pub uninterp spec fn signed_transaction(message: Seq<u8>, keypair: Seq<u8>) -> Result<
    Seq<u8>,
    Seq<char>,
>;

/// `bincode::deserialize` of a `VersionedTransaction`: its message, as bytes again, or the text
/// of the error.
#[verifier::external_body]
pub(crate) fn decode_message(tx: &Vec<u8>) -> (message: Result<Vec<u8>, String>)
    ensures
        match message {
            Ok(m) => transaction_message(tx@) matches Ok(known) && known == m@,
            Err(e) => transaction_message(tx@) matches Err(known) && known == e@,
        },
{
    match bincode::deserialize::<solana_sdk::transaction::VersionedTransaction>(tx) {
        Ok(tx) => Ok(tx.message.serialize()),
        Err(error) => Err(error.to_string()),
    }
}

/// `VersionedTransaction::try_new` of the Solana SDK with a message and the one key pair that
/// signs it: the transaction, or the text of the error.
#[verifier::external_body]
pub(crate) fn sign_message(message: &Vec<u8>, keypair: &Vec<u8>) -> (tx: Result<Vec<u8>, String>)
    ensures
        match tx {
            Ok(t) => signed_transaction(message@, keypair@) matches Ok(known) && known == t@,
            Err(e) => signed_transaction(message@, keypair@) matches Err(known) && known == e@,
        },
{
    let keypair = solana_sdk::signature::Keypair::try_from(keypair.as_slice()).map_err(
        |e| e.to_string(),
    )?;
    let message = bincode::deserialize(message).map_err(|e| e.to_string())?;
    let tx = solana_sdk::transaction::VersionedTransaction::try_new(message, &[&keypair]).map_err(
        |e| e.to_string(),
    )?;
    bincode::serialize(&tx).map_err(|e| e.to_string())
}

/// `v0::Message::try_compile` of the Solana SDK: the message, as the bytes of its `serialize`, or
/// the text of the error. Lists that are too long for these bytes are left out.
#[verifier::external_body]
pub(crate) fn compile_message(
    payer: &Pubkey,
    instructions: &Vec<Instruction>,
    tables: &Vec<LookupTable>,
    blockhash: [u8; 32],
) -> (message: Result<Vec<u8>, String>)
    requires
        encodable(instruction_views(instructions@)),
    ensures
        match message {
            Ok(m) => compiled_message(
                *payer,
                instruction_views(instructions@),
                table_views(tables@),
                blockhash@,
            ) matches Ok(known) && known == m@,
            Err(e) => compiled_message(
                *payer,
                instruction_views(instructions@),
                table_views(tables@),
                blockhash@,
            ) matches Err(known) && known == e@,
        },
{
    let ixs = Vec::from_iter(instructions.iter().map(|ix| instruction::Instruction::new_with_bytes(
        ix.program_id.bytes.into(), &ix.data,
        ix.accounts.iter().map(|a| AccountMeta {
            pubkey: a.key.bytes.into(), is_signer: a.is_signer, is_writable: a.is_writable,
        }).collect(),
    )));
    let tables = Vec::from_iter(tables.iter().map(|t| AddressLookupTableAccount {
        key: t.key.bytes.into(), addresses: t.addresses.iter().map(|k| k.bytes.into()).collect(),
    }));
    Ok(v0::Message::try_compile(&payer.bytes.into(), &ixs, &tables, blockhash.into())
        .map_err(|e| e.to_string())?.serialize())
}

// ── Laws ─────────────────────────────────────────────────────────────────────

/// A message can hold lists of up to as many items as sixteen bits can count.
pub proof fn law_lists_are_counted_in_sixteen_bits(instructions: &Vec<Instruction>, ok: bool)
    requires
        call_ensures(is_encodable, (instructions,), ok),
    ensures
        ok <==> instructions@.len() <= u16::MAX && forall|i: int|
            0 <= i < instructions@.len() ==> (#[trigger] instructions@[i]).accounts@.len()
                <= u16::MAX && instructions@[i].data@.len() <= u16::MAX,
{
    let views = instruction_views(instructions@);
    assert forall|i: int| 0 <= i < instructions@.len() implies views[i]
        == (#[trigger] instructions@[i])@ by {}
    if ok {
        assert forall|i: int| 0 <= i < instructions@.len() implies (
        #[trigger] instructions@[i]).accounts@.len() <= u16::MAX && instructions@[i].data@.len()
            <= u16::MAX by {
            assert(views[i].accounts.len() <= LIST_MAX);
        }
    } else if instructions@.len() <= u16::MAX {
        let i = choose|i: int|
            0 <= i < views.len() && !((#[trigger] views[i]).accounts.len() <= LIST_MAX
                && views[i].data.len() <= LIST_MAX);
        assert(views[i] == instructions@[i]@);
    }
}

}
