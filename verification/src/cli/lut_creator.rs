//! Filling lookup tables.
//!
//! The tables of a group are listed in an environment variable. What they hold already is kept:
//! tables only grow, so a key that changed is added beside the old one. What is missing goes into
//! the last table as far as it has room, and then into new tables. The Solana command line tool
//! creates and extends them: the caller runs the pending command and hands back its output.

use vstd::prelude::*;

use crate::keyed::{copy_keys, copy_range, KeySet};
use crate::pubkey::{base58_key, base58_text, key_spelled, Pubkey};
use crate::text::{
    copy, free_of, is_base58, is_base58_char, is_white_space, join, joined, last_word,
    law_split_undoes_join, law_the_last_word_stands_at_the_end, law_trimming_bares_a_text,
    lemma_base58_is_bare, split, split_on, starts_with, trim, trimmed, views, word_at_end,
};

verus! {

/// How many addresses a table holds at most.
pub const LUT_MAX: usize = 256;

/// How many addresses one command adds at most.
pub const EXTEND_CHUNK: usize = 20;

// ── The list of tables ───────────────────────────────────────────────────────

/// The addresses that the pieces of a list spell. A piece that spells none is left out.
pub open spec fn keys_spelled(pieces: Seq<Seq<char>>) -> Seq<Pubkey>
    decreases pieces.len(),
{
    if pieces.len() == 0 {
        Seq::empty()
    } else {
        let before = keys_spelled(pieces.drop_last());
        match key_spelled(trimmed(pieces.last())) {
            Some(key) => before.push(key),
            None => before,
        }
    }
}

/// The addresses that a list, separated by commas, spells.
pub open spec fn keys_listed(text: Seq<char>) -> Seq<Pubkey> {
    keys_spelled(split_on(text, ','))
}

/// The printed addresses.
pub open spec fn key_texts(keys: Seq<Pubkey>) -> Seq<Seq<char>> {
    keys.map_values(|k: Pubkey| base58_text(k))
}

/// The addresses as a list, separated by commas.
pub open spec fn list_of(keys: Seq<Pubkey>) -> Seq<char> {
    joined(key_texts(keys), ',')
}

/// The tables that an environment variable lists. A variable that is not set or is empty lists
/// none.
pub fn read_existing_luts(value: Option<&str>) -> (keys: Vec<Pubkey>)
    ensures
        match value {
            Some(text) => keys@ == keys_listed(text@) && (text@.len() == 0 ==> keys@.len() == 0),
            None => keys@.len() == 0,
        },
{
    let text = match value {
        Some(text) => text,
        None => {
            return Vec::new();
        },
    };
    let pieces = split(text, ',');
    let mut keys: Vec<Pubkey> = Vec::new();
    let mut i: usize = 0;
    assert(keys@ =~= keys_spelled(views(pieces@).take(0)));
    while i < pieces.len()
        invariant
            i <= pieces@.len(),
            keys@ == keys_spelled(views(pieces@).take(i as int)),
            views(pieces@) == split_on(text@, ','),
            text@.len() == 0 ==> keys@.len() == 0,
        decreases pieces@.len() - i,
    {
        let ghost all = views(pieces@);
        let piece = trim(pieces[i].as_str());
        let key = Pubkey::from_text(piece.as_str());
        proof {
            assert(all.take(i + 1).drop_last() =~= all.take(i as int));
            assert(all.take(i + 1).last() == pieces@[i as int]@);
            if text@.len() == 0 {
                let nothing = seq![Seq::<char>::empty()];
                assert(split_on(text@, ',') == nothing);
                assert(all.len() == nothing.len());
                assert(pieces@[i as int]@ == nothing[0]);
                assert(trimmed(Seq::<char>::empty()) =~= Seq::<char>::empty());
                assert(piece@.len() == 0);
            }
        }
        if let Ok(key) = key {
            keys.push(key);
        }
        i += 1;
    }
    assert(views(pieces@).take(i as int) =~= views(pieces@));
    keys
}

/// Printed addresses read back as the addresses.
proof fn lemma_spelled_keys(keys: Seq<Pubkey>, texts: Seq<Seq<char>>)
    requires
        texts.len() == keys.len(),
        forall|i: int|
            0 <= i < keys.len() ==> is_base58(#[trigger] texts[i]) && key_spelled(texts[i]) == Some(
                keys[i],
            ),
    ensures
        keys_spelled(texts) == keys,
    decreases keys.len(),
{
    if keys.len() > 0 {
        let front = texts.drop_last();
        assert forall|i: int| 0 <= i < front.len() implies is_base58(#[trigger] front[i])
            && key_spelled(front[i]) == Some(keys.drop_last()[i]) by {
            assert(front[i] == texts[i]);
        }
        lemma_spelled_keys(keys.drop_last(), front);
        assert(texts[texts.len() - 1] == texts.last());
        lemma_base58_is_bare(texts.last());
        assert(keys.drop_last().push(keys.last()) =~= keys);
    } else {
        assert(keys_spelled(texts) =~= keys);
    }
}

/// The addresses as a list, separated by commas. A list of at least one reads back as the same
/// addresses.
pub fn key_list(keys: &Vec<Pubkey>) -> (text: String)
    ensures
        text@ == list_of(keys@),
        keys@.len() > 0 ==> keys_listed(text@) == keys@,
        keys@.len() == 0 ==> text@.len() == 0,
{
    let mut texts: Vec<String> = Vec::new();
    let mut i: usize = 0;
    while i < keys.len()
        invariant
            i <= keys@.len(),
            texts@.len() == i,
            forall|j: int|
                0 <= j < i ==> (#[trigger] texts@[j])@ == base58_text(keys@[j]) && is_base58(
                    texts@[j]@,
                ) && key_spelled(texts@[j]@) == Some(keys@[j]),
        decreases keys@.len() - i,
    {
        texts.push(keys[i].to_text());
        i += 1;
    }
    let text = join(&texts, ',');
    proof {
        assert(views(texts@) =~= key_texts(keys@));
        if keys@.len() > 0 {
            let all = views(texts@);
            assert forall|j: int| 0 <= j < all.len() implies free_of(#[trigger] all[j], ',') by {
                assert(all[j] == texts@[j]@);
                lemma_base58_is_bare(texts@[j]@);
            }
            law_split_undoes_join(all, ',');
            assert forall|j: int| 0 <= j < keys@.len() implies is_base58(#[trigger] all[j])
                && key_spelled(all[j]) == Some(keys@[j]) by {
                assert(all[j] == texts@[j]@);
            }
            lemma_spelled_keys(keys@, all);
        }
    }
    text
}

/// A line for an environment file that gives a variable the list of addresses.
pub fn env_line(name: &str, keys: &Vec<Pubkey>) -> (line: String)
    ensures
        line@ == name@.push('=') + list_of(keys@),
{
    let mut line = copy(name);
    line.push('=');
    let list = key_list(keys);
    line.append(list.as_str());
    line
}

// ── What the tables hold already ─────────────────────────────────────────────

/// What `AddressLookupTable::deserialize` of the Solana SDK makes of account data: the addresses
/// in the table, or an error with its own text.
pub uninterp spec fn table_addresses(data: Seq<u8>) -> Result<Seq<Pubkey>, Seq<char>>;

/// `AddressLookupTable::deserialize` of the Solana SDK: the addresses in the table, or the text
/// of the error.
#[verifier::external_body]
fn decode_table(data: &Vec<u8>) -> (addresses: Result<Vec<Pubkey>, String>)
    ensures
        match addresses {
            Ok(a) => table_addresses(data@) matches Ok(known) && known == a@,
            Err(e) => table_addresses(data@) matches Err(known) && known == e@,
        },
{
    match solana_sdk::address_lookup_table::state::AddressLookupTable::deserialize(data) {
        Ok(table) => Ok(table.addresses.iter().map(|k| Pubkey { bytes: k.to_bytes() }).collect()),
        Err(error) => Err(error.to_string()),
    }
}

/// What the existing tables of a group hold, and how many more addresses the last one takes.
#[derive(Debug)]
pub struct Tables {
    pub stored: KeySet,
    pub last_space: usize,
}

/// Why the existing tables could not be read.
#[derive(Debug)]
pub enum TablesError {
    /// There is no such account.
    NotFound(Pubkey),
    /// The account is no lookup table, and what the decoder says.
    Undecodable { key: Pubkey, message: String },
}

/// The addresses in a table's account, if it is there and is a table.
pub open spec fn table_in(account: Option<Vec<u8>>) -> Option<Seq<Pubkey>> {
    match account {
        Some(data) => match table_addresses(data@) {
            Ok(addresses) => Some(addresses),
            Err(_) => None,
        },
        None => None,
    }
}

/// The addresses that at least one of the tables holds.
pub open spec fn stored_in(accounts: Seq<Option<Vec<u8>>>) -> Set<Pubkey> {
    Set::new(
        |k: Pubkey|
            exists|i: int|
                0 <= i < accounts.len() && table_in(#[trigger] accounts[i]) is Some && table_in(
                    accounts[i],
                )->0.contains(k),
    )
}

/// How many more addresses a table takes.
pub open spec fn space_left(table: Seq<Pubkey>) -> nat {
    if table.len() < LUT_MAX {
        (LUT_MAX - table.len()) as nat
    } else {
        0
    }
}

/// The room in the last of the tables; none where there is no table.
pub open spec fn last_space_in(accounts: Seq<Option<Vec<u8>>>) -> nat {
    if accounts.len() == 0 {
        0
    } else {
        space_left(table_in(accounts.last())->0)
    }
}

/// The accounts that belong to a key: there may be fewer of them than keys, or more.
pub open spec fn paired(keys: Seq<Pubkey>, accounts: Seq<Option<Vec<u8>>>) -> Seq<Option<Vec<u8>>> {
    if accounts.len() <= keys.len() {
        accounts
    } else {
        accounts.take(keys.len() as int)
    }
}

/// The error is that of the first account that is not there or is no table.
pub open spec fn first_bad_table(
    keys: Seq<Pubkey>,
    accounts: Seq<Option<Vec<u8>>>,
    error: TablesError,
) -> bool {
    exists|i: int|
        0 <= i < accounts.len() && table_in(#[trigger] accounts[i]) is None && (forall|j: int|
            0 <= j < i ==> table_in(#[trigger] accounts[j]) is Some) && match error {
            TablesError::NotFound(key) => key == keys[i] && accounts[i] is None,
            TablesError::Undecodable { key, message } => key == keys[i] && (
            accounts[i] matches Some(data) && (table_addresses(data@) matches Err(known) && known
                == message@)),
        }
}

/// Each account is there and is a table.
pub open spec fn all_tables(accounts: Seq<Option<Vec<u8>>>) -> bool {
    forall|i: int| 0 <= i < accounts.len() ==> table_in(#[trigger] accounts[i]) is Some
}

/// Reads the existing tables of a group. The first account that is not there or is no table is
/// an error.
pub fn read_tables(keys: &Vec<Pubkey>, accounts: &Vec<Option<Vec<u8>>>) -> (r: Result<
    Tables,
    TablesError,
>)
    ensures
        match r {
            Ok(tables) => tables.stored.wf() && tables.stored@ == stored_in(
                paired(keys@, accounts@),
            ) && tables.last_space == last_space_in(paired(keys@, accounts@)) && all_tables(
                paired(keys@, accounts@),
            ),
            Err(error) => first_bad_table(keys@, paired(keys@, accounts@), error),
        },
{
    let ghost mine = paired(keys@, accounts@);
    let mut stored = KeySet::new();
    let mut last_space: usize = 0;
    let mut i: usize = 0;
    assert(stored@ =~= stored_in(mine.take(0)));
    while i < keys.len() && i < accounts.len()
        invariant
            mine == paired(keys@, accounts@),
            i <= mine.len(),
            stored.wf(),
            stored@ == stored_in(mine.take(i as int)),
            last_space == last_space_in(mine.take(i as int)),
            forall|j: int| 0 <= j < i ==> table_in(#[trigger] mine[j]) is Some,
        decreases keys@.len() - i,
    {
        assert(mine[i as int] == accounts@[i as int]);
        match &accounts[i] {
            Some(data) => match decode_table(data) {
                Ok(addresses) => {
                    stored.insert_all(&addresses);
                    last_space = if addresses.len() < LUT_MAX {
                        LUT_MAX - addresses.len()
                    } else {
                        0
                    };
                    proof {
                        lemma_one_more_table(mine, i as int);
                        assert(mine.take(i + 1).last() == mine[i as int]);
                        assert(stored@ =~= stored_in(mine.take(i + 1)));
                    }
                },
                Err(message) => {
                    return Err(TablesError::Undecodable { key: keys[i], message });
                },
            },
            None => {
                return Err(TablesError::NotFound(keys[i]));
            },
        }
        i += 1;
    }
    assert(mine.take(i as int) =~= mine);
    Ok(Tables { stored, last_space })
}

/// What one more table adds.
proof fn lemma_one_more_table(accounts: Seq<Option<Vec<u8>>>, i: int)
    requires
        0 <= i < accounts.len(),
        table_in(accounts[i]) is Some,
    ensures
        forall|k: Pubkey| #[trigger]
            stored_in(accounts.take(i + 1)).contains(k) <==> stored_in(accounts.take(i)).contains(k)
                || table_in(accounts[i])->0.contains(k),
{
    let done = accounts.take(i);
    let next = accounts.take(i + 1);
    assert(next[i] == accounts[i]);
    assert forall|k: Pubkey| #[trigger]
        stored_in(next).contains(k) <==> stored_in(done).contains(k) || table_in(
            accounts[i],
        )->0.contains(k) by {
        if stored_in(done).contains(k) {
            let j = choose|j: int|
                0 <= j < done.len() && table_in(#[trigger] done[j]) is Some && table_in(
                    done[j],
                )->0.contains(k);
            assert(next[j] == done[j]);
        }
        if stored_in(next).contains(k) {
            let j = choose|j: int|
                0 <= j < next.len() && table_in(#[trigger] next[j]) is Some && table_in(
                    next[j],
                )->0.contains(k);
            if j < i {
                assert(done[j] == next[j]);
            }
        }
    }
}

// ── What is missing, and where it goes ───────────────────────────────────────

/// Where the missing addresses go.
#[derive(Debug)]
pub struct GroupPlan {
    /// Those that the last existing table takes.
    pub extend: Vec<Pubkey>,
    /// Those that go into new tables.
    pub fresh: Vec<Pubkey>,
}

/// The addresses that are not stored yet, in order.
pub open spec fn missing(all: Seq<Pubkey>, stored: Set<Pubkey>) -> Seq<Pubkey> {
    all.filter(|k: Pubkey| !stored.contains(k))
}

/// How many of the missing addresses the last existing table takes.
pub open spec fn taken(missing: nat, space: nat) -> nat {
    if missing <= space {
        missing
    } else {
        space
    }
}

impl GroupPlan {
    /// Plans where the addresses of a group go that are not stored yet.
    pub fn new(all: &Vec<Pubkey>, tables: &Tables) -> (plan: GroupPlan)
        ensures
            plan.extend@ == missing(all@, tables.stored@).take(
                taken(missing(all@, tables.stored@).len(), tables.last_space as nat) as int,
            ),
            plan.fresh@ == missing(all@, tables.stored@).skip(
                taken(missing(all@, tables.stored@).len(), tables.last_space as nat) as int,
            ),
    {
        let mut remaining: Vec<Pubkey> = Vec::new();
        let mut i: usize = 0;
        let ghost is_missing = |k: Pubkey| !tables.stored@.contains(k);
        assert(missing(all@.take(0), tables.stored@) =~= Seq::empty());
        while i < all.len()
            invariant
                i <= all@.len(),
                is_missing == (|k: Pubkey| !tables.stored@.contains(k)),
                remaining@ == missing(all@.take(i as int), tables.stored@),
            decreases all@.len() - i,
        {
            proof {
                assert(all@.take(i + 1) =~= all@.take(i as int).push(all@[i as int]));
                all@.take(i as int).lemma_filter_push(all@[i as int], is_missing);
            }
            if !tables.stored.contains(&all[i]) {
                remaining.push(all[i]);
            }
            i += 1;
        }
        assert(all@.take(i as int) =~= all@);
        let take: usize = if remaining.len() <= tables.last_space {
            remaining.len()
        } else {
            tables.last_space
        };
        let extend = copy_range(&remaining, 0, take);
        let fresh = copy_range(&remaining, take, remaining.len());
        assert(extend@ =~= remaining@.take(take as int));
        assert(fresh@ =~= remaining@.skip(take as int));
        GroupPlan { extend, fresh }
    }

    /// Whether the tables hold everything already.
    pub fn is_up_to_date(&self) -> (r: bool)
        ensures
            r == (self.extend@.len() == 0 && self.fresh@.len() == 0),
    {
        self.extend.len() == 0 && self.fresh.len() == 0
    }
}

// ── The output of the command line tool ──────────────────────────────────────

/// How the tool announces a new table.
pub const TABLE_PREFIX: &'static str = "Lookup Table Address:";

/// What the output of the tool says about a new table.
#[derive(Clone, Copy, Debug)]
pub enum Announced {
    /// The address of the table.
    Table(Pubkey),
    /// A table, but what stands for its address is none.
    Invalid,
    /// Nothing.
    Nothing,
}

/// The line announces a table.
pub open spec fn announces(line: Seq<char>) -> bool {
    TABLE_PREFIX@.is_prefix_of(trimmed(line))
}

/// The address at the end of a line.
pub open spec fn address_at_end(line: Seq<char>) -> Option<Pubkey> {
    key_spelled(last_word(trimmed(line)))
}

/// What the lines say: the first line that announces a table decides. Where `skip_invalid`
/// holds, lines without an address at their end do not count.
pub open spec fn announced(lines: Seq<Seq<char>>, skip_invalid: bool) -> Announced
    decreases lines.len(),
{
    if lines.len() == 0 {
        Announced::Nothing
    } else if announces(lines[0]) {
        match address_at_end(lines[0]) {
            Some(key) => Announced::Table(key),
            None => if skip_invalid {
                announced(lines.skip(1), skip_invalid)
            } else {
                Announced::Invalid
            },
        }
    } else {
        announced(lines.skip(1), skip_invalid)
    }
}

/// What the output of the tool says about a new table.
pub fn announced_table(stdout: &str, skip_invalid: bool) -> (r: Announced)
    ensures
        r == announced(split_on(stdout@, '\n'), skip_invalid),
{
    let lines = split(stdout, '\n');
    let ghost all = views(lines@);
    let mut i: usize = 0;
    assert(all.skip(0) =~= all);
    while i < lines.len()
        invariant
            i <= lines@.len(),
            all == views(lines@),
            announced(all, skip_invalid) == announced(all.skip(i as int), skip_invalid),
            all == split_on(stdout@, '\n'),
        decreases lines@.len() - i,
    {
        assert(all.skip(i as int)[0] == lines@[i as int]@);
        assert(all.skip(i as int).skip(1) =~= all.skip(i + 1));
        let line = trim(lines[i].as_str());
        if starts_with(line.as_str(), TABLE_PREFIX) {
            let word = word_at_end(line.as_str());
            match Pubkey::from_text(word.as_str()) {
                Ok(key) => {
                    return Announced::Table(key);
                },
                Err(_) => {
                    if !skip_invalid {
                        return Announced::Invalid;
                    }
                },
            }
        }
        i += 1;
    }
    Announced::Nothing
}

// ── Running the command line tool ────────────────────────────────────────────

/// What a command printed, and whether it succeeded.
#[derive(Debug)]
pub struct CommandOutput {
    pub success: bool,
    pub stdout: String,
    pub stderr: String,
}

/// Why the tables could not be filled.
#[derive(Debug)]
pub enum RunError {
    /// The tool could not be started, and why.
    CannotRun(String),
    /// No table was created, and what the tool says.
    CreateFailed(String),
    /// The output does not say which table was created.
    NoAddress(String),
    /// What the output gives for the table is no address.
    InvalidAddress(String),
    /// A table was not extended by the chunk with this number, counted from one, and what the
    /// tool says.
    ExtendFailed { chunk: usize, stderr: String },
}

#[derive(Debug)]
enum RunPhase {
    Creating,
    Extending { lut: Pubkey, bucket: Vec<Pubkey>, sent: usize },
    Done(Result<(), RunError>),
}

/// Where a run stands.
pub enum PhaseState {
    /// A table is being created.
    Creating,
    /// A table is being extended by the addresses of `bucket`, of which the first `sent` are in.
    Extending { lut: Pubkey, bucket: Seq<Pubkey>, sent: nat },
    /// Nothing is left to do.
    Done(Result<(), RunError>),
}

/// Tables on their way to be filled.
#[derive(Debug)]
pub struct LutRun {
    url: String,
    wallet: String,
    skip_invalid: bool,
    keys: Vec<Pubkey>,
    fresh: Vec<Pubkey>,
    placed: usize,
    phase: RunPhase,
}

/// What a run is.
pub struct RunState {
    /// The RPC URL.
    pub url: Seq<char>,
    /// The path of the wallet file.
    pub wallet: Seq<char>,
    /// A line that announces a table without an address is passed over.
    pub skip_invalid: bool,
    /// The tables so far.
    pub keys: Seq<Pubkey>,
    /// The addresses that have no table yet.
    pub fresh: Seq<Pubkey>,
    pub phase: PhaseState,
}

impl RunPhase {
    spec fn state(&self) -> PhaseState {
        match *self {
            RunPhase::Creating => PhaseState::Creating,
            RunPhase::Extending { lut, bucket, sent } => PhaseState::Extending {
                lut,
                bucket: bucket@,
                sent: sent as nat,
            },
            RunPhase::Done(result) => PhaseState::Done(result),
        }
    }
}

impl View for LutRun {
    type V = RunState;

    closed spec fn view(&self) -> RunState {
        RunState {
            url: self.url@,
            wallet: self.wallet@,
            skip_invalid: self.skip_invalid,
            keys: self.keys@,
            fresh: self.fresh@.skip(self.placed as int),
            phase: self.phase.state(),
        }
    }
}

/// The smaller of two numbers.
pub open spec fn at_most(n: nat, limit: nat) -> nat {
    if n <= limit {
        n
    } else {
        limit
    }
}

/// The addresses that the next command adds.
pub open spec fn chunk_at(bucket: Seq<Pubkey>, sent: nat) -> Seq<Pubkey> {
    bucket.subrange(
        sent as int,
        at_most(sent + EXTEND_CHUNK as nat, bucket.len()) as int,
    )
}

/// The phase in which the addresses without a table are dealt with.
pub open spec fn next_table(fresh: Seq<Pubkey>) -> PhaseState {
    if fresh.len() == 0 {
        PhaseState::Done(Ok(()))
    } else {
        PhaseState::Creating
    }
}

/// The arguments of the pending command.
pub open spec fn command_of(s: RunState) -> Option<Seq<Seq<char>>> {
    match s.phase {
        PhaseState::Creating => Some(
            seq!["address-lookup-table"@, "create"@, "--url"@, s.url, "--keypair"@, s.wallet],
        ),
        PhaseState::Extending { lut, bucket, sent } => Some(
            seq![
                "address-lookup-table"@,
                "extend"@,
                base58_text(lut),
                "--url"@,
                s.url,
                "--keypair"@,
                s.wallet,
                "--addresses"@,
                list_of(chunk_at(bucket, sent)),
            ],
        ),
        PhaseState::Done(_) => None,
    }
}

/// A run that ends with an error.
pub open spec fn failed(s: RunState, error: RunError) -> RunState {
    RunState { phase: PhaseState::Done(Err(error)), ..s }
}

/// The run after its command came back.
pub open spec fn after_command(s: RunState, output: Result<CommandOutput, String>) -> RunState {
    match (s.phase, output) {
        (PhaseState::Done(_), _) => s,
        (_, Err(why)) => failed(s, RunError::CannotRun(why)),
        (PhaseState::Creating, Ok(out)) => if !out.success {
            failed(s, RunError::CreateFailed(out.stderr))
        } else {
            match announced(split_on(out.stdout@, '\n'), s.skip_invalid) {
                Announced::Nothing => failed(s, RunError::NoAddress(out.stdout)),
                Announced::Invalid => failed(s, RunError::InvalidAddress(out.stdout)),
                Announced::Table(lut) => {
                    let size = at_most(s.fresh.len(), LUT_MAX as nat) as int;
                    RunState {
                        keys: s.keys.push(lut),
                        fresh: s.fresh.skip(size),
                        phase: PhaseState::Extending { lut, bucket: s.fresh.take(size), sent: 0 },
                        ..s
                    }
                },
            }
        },
        (PhaseState::Extending { lut, bucket, sent }, Ok(out)) => if !out.success {
            failed(
                s,
                RunError::ExtendFailed {
                    chunk: (sent / (EXTEND_CHUNK as nat) + 1) as usize,
                    stderr: out.stderr,
                },
            )
        } else {
            let sent = at_most(sent + EXTEND_CHUNK as nat, bucket.len());
            RunState {
                phase: if sent < bucket.len() {
                    PhaseState::Extending { lut, bucket, sent }
                } else {
                    next_table(s.fresh)
                },
                ..s
            }
        },
    }
}

/// A table is created only for addresses that have none, and a command adds at least one
/// address to a table that takes no more than it holds.
pub open spec fn run_wf(s: RunState) -> bool {
    &&& s.phase is Creating ==> s.fresh.len() > 0
    &&& s.phase matches PhaseState::Extending { lut, bucket, sent } ==> sent < bucket.len()
        <= LUT_MAX
    &&& s.phase matches PhaseState::Done(Ok(_)) ==> s.fresh.len() == 0
}

/// The run at its start.
pub open spec fn run_start(
    url: Seq<char>,
    wallet: Seq<char>,
    skip_invalid: bool,
    existing: Seq<Pubkey>,
    extend: Seq<Pubkey>,
    fresh: Seq<Pubkey>,
) -> RunState {
    RunState {
        url,
        wallet,
        skip_invalid,
        keys: existing,
        fresh,
        phase: if extend.len() > 0 {
            PhaseState::Extending { lut: existing.last(), bucket: extend, sent: 0 }
        } else {
            next_table(fresh)
        },
    }
}

fn push_text(args: &mut Vec<String>, arg: &str)
    ensures
        views(final(args)@) == views(old(args)@).push(arg@),
{
    let ghost before = args@;
    args.push(copy(arg));
    assert(views(args@) =~= views(before).push(arg@));
}

impl LutRun {
    /// What holds of every run.
    pub closed spec fn wf(&self) -> bool {
        self.placed <= self.fresh@.len() && run_wf(self@)
    }

    /// Starts to fill the tables of a group. What the plan adds to an existing table goes into
    /// the last one.
    pub fn start(
        url: &str,
        wallet: &str,
        skip_invalid: bool,
        existing: &Vec<Pubkey>,
        plan: GroupPlan,
    ) -> (run: LutRun)
        requires
            plan.extend@.len() > 0 ==> existing@.len() > 0,
            plan.extend@.len() <= LUT_MAX,
        ensures
            run.wf(),
            run_wf(run@),
            run@ == run_start(
                url@,
                wallet@,
                skip_invalid,
                existing@,
                plan.extend@,
                plan.fresh@,
            ),
    {
        let GroupPlan { extend, fresh } = plan;
        let phase = if extend.len() > 0 {
            RunPhase::Extending { lut: existing[existing.len() - 1], bucket: extend, sent: 0 }
        } else if fresh.len() == 0 {
            RunPhase::Done(Ok(()))
        } else {
            RunPhase::Creating
        };
        assert(fresh@.skip(0) =~= fresh@);
        LutRun {
            url: copy(url),
            wallet: copy(wallet),
            skip_invalid,
            keys: copy_keys(existing),
            fresh,
            placed: 0,
            phase,
        }
    }

    /// The arguments of the pending command; `None` when nothing is left to do.
    pub fn command(&self) -> (args: Option<Vec<String>>)
        requires
            self.wf(),
        ensures
            match args {
                Some(args) => command_of(self@) == Some(views(args@)),
                None => command_of(self@) is None,
            },
    {
        let mut args: Vec<String> = Vec::new();
        assert(views(args@) =~= Seq::empty());
        match &self.phase {
            RunPhase::Creating => {
                push_text(&mut args, "address-lookup-table");
                push_text(&mut args, "create");
                push_text(&mut args, "--url");
                push_text(&mut args, self.url.as_str());
                push_text(&mut args, "--keypair");
                push_text(&mut args, self.wallet.as_str());
                assert(Some(views(args@)) =~= command_of(self@));
                Some(args)
            },
            RunPhase::Extending { lut, bucket, sent } => {
                let to: usize = if bucket.len() - *sent <= EXTEND_CHUNK {
                    bucket.len()
                } else {
                    *sent + EXTEND_CHUNK
                };
                let chunk = copy_range(bucket, *sent, to);
                assert(chunk@ =~= chunk_at(bucket@, *sent as nat));
                let lut_text = lut.to_text();
                let list = key_list(&chunk);
                push_text(&mut args, "address-lookup-table");
                push_text(&mut args, "extend");
                push_text(&mut args, lut_text.as_str());
                push_text(&mut args, "--url");
                push_text(&mut args, self.url.as_str());
                push_text(&mut args, "--keypair");
                push_text(&mut args, self.wallet.as_str());
                push_text(&mut args, "--addresses");
                push_text(&mut args, list.as_str());
                assert(Some(views(args@)) =~= command_of(self@));
                Some(args)
            },
            RunPhase::Done(_) => None,
        }
    }

    /// Takes in what came of the pending command.
    pub fn step(self, output: Result<CommandOutput, String>) -> (run: LutRun)
        requires
            self.wf(),
        ensures
            run.wf(),
            run_wf(run@),
            run@ == after_command(self@, output),
    {
        let LutRun { url, wallet, skip_invalid, keys, fresh, placed, phase } = self;
        let mut keys = keys;
        let mut placed: usize = placed;
        let phase = match (phase, output) {
            (RunPhase::Done(result), _) => RunPhase::Done(result),
            (_, Err(why)) => RunPhase::Done(Err(RunError::CannotRun(why))),
            (RunPhase::Creating, Ok(out)) => {
                if !out.success {
                    RunPhase::Done(Err(RunError::CreateFailed(out.stderr)))
                } else {
                    match announced_table(out.stdout.as_str(), skip_invalid) {
                        Announced::Nothing => RunPhase::Done(Err(RunError::NoAddress(out.stdout))),
                        Announced::Invalid => RunPhase::Done(
                            Err(RunError::InvalidAddress(out.stdout)),
                        ),
                        Announced::Table(lut) => {
                            let to: usize = if fresh.len() - placed <= LUT_MAX {
                                fresh.len()
                            } else {
                                placed + LUT_MAX
                            };
                            let bucket = copy_range(&fresh, placed, to);
                            proof {
                                let size = to - placed;
                                assert(bucket@ =~= fresh@.skip(placed as int).take(size));
                                assert(fresh@.skip(to as int) =~= fresh@.skip(placed as int).skip(
                                    size,
                                ));
                            }
                            keys.push(lut);
                            placed = to;
                            RunPhase::Extending { lut, bucket, sent: 0 }
                        },
                    }
                }
            },
            (RunPhase::Extending { lut, bucket, sent }, Ok(out)) => {
                if !out.success {
                    RunPhase::Done(
                        Err(
                            RunError::ExtendFailed {
                                chunk: sent / EXTEND_CHUNK + 1,
                                stderr: out.stderr,
                            },
                        ),
                    )
                } else if bucket.len() - sent <= EXTEND_CHUNK {
                    if placed == fresh.len() {
                        RunPhase::Done(Ok(()))
                    } else {
                        RunPhase::Creating
                    }
                } else {
                    RunPhase::Extending { lut, bucket, sent: sent + EXTEND_CHUNK }
                }
            },
        };
        LutRun { url, wallet, skip_invalid, keys, fresh, placed, phase }
    }

    /// The tables of the group once all addresses are in, or why they are not; the run itself
    /// while a command is pending.
    pub fn into_result(self) -> (r: Result<Result<Vec<Pubkey>, RunError>, LutRun>)
        ensures
            match r {
                Ok(Ok(keys)) => (self@.phase matches PhaseState::Done(Ok(_))) && keys@ == self@.keys,
                Ok(Err(e)) => self@.phase == PhaseState::Done(Err(e)),
                Err(run) => run == self && !(self@.phase is Done),
            },
    {
        let LutRun { url, wallet, skip_invalid, keys, fresh, placed, phase } = self;
        match phase {
            RunPhase::Done(Ok(())) => Ok(Ok(keys)),
            RunPhase::Done(Err(e)) => Ok(Err(e)),
            phase => Err(LutRun { url, wallet, skip_invalid, keys, fresh, placed, phase }),
        }
    }
}

// ── Groups ───────────────────────────────────────────────────────────────────

/// Starts to add the addresses of a group that its existing tables do not hold yet. `accounts`
/// are the accounts of the existing tables.
pub fn populate_group(
    url: &str,
    wallet: &str,
    all: &Vec<Pubkey>,
    existing: &Vec<Pubkey>,
    accounts: &Vec<Option<Vec<u8>>>,
) -> (r: Result<LutRun, TablesError>)
    ensures
        ({
            let mine = paired(existing@, accounts@);
            match r {
                Ok(run) => all_tables(mine) && run.wf() && run_wf(run@) && run@ == run_start(
                    url@,
                    wallet@,
                    true,
                    existing@,
                    to_extend(all@, mine),
                    to_create(all@, mine),
                ),
                Err(error) => first_bad_table(existing@, mine, error),
            }
        }),
{
    match read_tables(existing, accounts) {
        Ok(tables) => {
            let plan = GroupPlan::new(all, &tables);
            Ok(LutRun::start(url, wallet, true, existing, plan))
        },
        Err(error) => Err(error),
    }
}

/// Starts to put addresses into new tables. Where `skip_invalid` does not hold, an announced
/// table without an address ends the run.
pub fn create_lut_group(url: &str, wallet: &str, skip_invalid: bool, addresses: Vec<Pubkey>) -> (
run: LutRun)
    ensures
        run.wf(),
        run_wf(run@),
        run@ == run_start(
            url@,
            wallet@,
            skip_invalid,
            Seq::empty(),
            Seq::empty(),
            addresses@,
        ),
{
    let existing: Vec<Pubkey> = Vec::new();
    let extend: Vec<Pubkey> = Vec::new();
    LutRun::start(url, wallet, skip_invalid, &existing, GroupPlan { extend, fresh: addresses })
}

/// Whether there is no table to bring up to date.
pub fn nothing_to_sync(g1: &Vec<Pubkey>, g2: &Vec<Pubkey>, g3: &Vec<Pubkey>) -> (r: bool)
    ensures
        r == (g1@.len() == 0 && g2@.len() == 0 && g3@.len() == 0),
{
    g1.len() == 0 && g2.len() == 0 && g3.len() == 0
}

/// The missing addresses that the last existing table takes.
pub open spec fn to_extend(all: Seq<Pubkey>, accounts: Seq<Option<Vec<u8>>>) -> Seq<Pubkey> {
    let rest = missing(all, stored_in(accounts));
    rest.take(taken(rest.len(), last_space_in(accounts)) as int)
}

/// The missing addresses that go into new tables.
pub open spec fn to_create(all: Seq<Pubkey>, accounts: Seq<Option<Vec<u8>>>) -> Seq<Pubkey> {
    let rest = missing(all, stored_in(accounts));
    rest.skip(taken(rest.len(), last_space_in(accounts)) as int)
}

// ── Laws ─────────────────────────────────────────────────────────────────────

/// The addresses that a run has still to send.
pub open spec fn todo(s: RunState) -> Seq<Pubkey> {
    match s.phase {
        PhaseState::Extending { lut, bucket, sent } => bucket.skip(sent as int) + s.fresh,
        _ => s.fresh,
    }
}

proof fn lemma_missing(all: Seq<Pubkey>, stored: Set<Pubkey>)
    ensures
        forall|k: Pubkey| #[trigger]
            missing(all, stored).contains(k) <==> all.contains(k) && !stored.contains(k),
        all.no_duplicates() ==> missing(all, stored).no_duplicates(),
    decreases all.len(),
{
    let is_missing = |k: Pubkey| !stored.contains(k);
    if all.len() == 0 {
        assert(missing(all, stored) =~= Seq::empty());
    } else {
        let front = all.drop_last();
        lemma_missing(front, stored);
        assert(all =~= front.push(all.last()));
        front.lemma_filter_push(all.last(), is_missing);
        let before = missing(front, stored);
        let after = missing(all, stored);
        assert forall|k: Pubkey| #[trigger] after.contains(k) <==> all.contains(k)
            && !stored.contains(k) by {
            assert(all.contains(k) <==> front.contains(k) || k == all.last()) by {
                if front.contains(k) {
                    let i = choose|i: int| 0 <= i < front.len() && front[i] == k;
                    assert(all[i] == k);
                }
                assert(all[all.len() - 1] == all.last());
            }
            if is_missing(all.last()) {
                assert(after == before.push(all.last()));
                assert(after[before.len() as int] == all.last());
                if before.contains(k) {
                    let i = choose|i: int| 0 <= i < before.len() && before[i] == k;
                    assert(after[i] == k);
                }
            }
        }
        if all.no_duplicates() {
            assert(front.no_duplicates());
            if is_missing(all.last()) {
                if before.contains(all.last()) {
                    assert(front.contains(all.last()));
                    let i = choose|i: int| 0 <= i < front.len() && front[i] == all.last();
                    assert(all[i] == all[all.len() - 1]);
                }
                assert(after.no_duplicates());
            }
        }
    }
}

/// What is added to the tables of a group is what was missing: nothing is lost, nothing is added
/// that is stored already, and nothing twice. With it the tables hold every address of the
/// group.
pub proof fn law_the_missing_addresses_are_added(
    all: Seq<Pubkey>,
    accounts: Seq<Option<Vec<u8>>>,
    k: Pubkey,
)
    ensures
        ({
            let added = to_extend(all, accounts) + to_create(all, accounts);
            &&& added == missing(all, stored_in(accounts))
            &&& added.contains(k) ==> all.contains(k) && !stored_in(accounts).contains(k)
            &&& all.contains(k) ==> stored_in(accounts).contains(k) || added.contains(k)
            &&& all.no_duplicates() ==> added.no_duplicates()
        }),
{
    lemma_missing(all, stored_in(accounts));
    let added = to_extend(all, accounts) + to_create(all, accounts);
    assert(added =~= missing(all, stored_in(accounts)));
}

/// A table that is extended holds no more than it may afterwards.
pub proof fn law_the_last_table_does_not_overflow(
    all: Seq<Pubkey>,
    accounts: Seq<Option<Vec<u8>>>,
)
    requires
        accounts.len() > 0,
        table_in(accounts.last()) is Some,
        table_in(accounts.last())->0.len() <= LUT_MAX,
    ensures
        table_in(accounts.last())->0.len() + to_extend(all, accounts).len() <= LUT_MAX,
{
}

/// A group whose tables hold everything already is left as it is: no command is run, and its
/// tables stay the same.
pub proof fn law_an_up_to_date_group_is_left_alone(
    url: Seq<char>,
    wallet: Seq<char>,
    all: Seq<Pubkey>,
    existing: Seq<Pubkey>,
    accounts: Seq<Option<Vec<u8>>>,
)
    requires
        forall|k: Pubkey| #[trigger] all.contains(k) ==> stored_in(accounts).contains(k),
    ensures
        ({
            let run = run_start(
                url,
                wallet,
                true,
                existing,
                to_extend(all, accounts),
                to_create(all, accounts),
            );
            &&& command_of(run) is None
            &&& (run.phase matches PhaseState::Done(Ok(_)))
            &&& run.keys == existing
        }),
{
    lemma_missing(all, stored_in(accounts));
    let rest = missing(all, stored_in(accounts));
    if rest.len() > 0 {
        assert(rest.contains(rest[0]));
    }
}

/// Groups are synced by adding only: the existing tables stay in the result, in front.
pub proof fn law_tables_are_only_added(s: RunState, output: Result<CommandOutput, String>)
    ensures
        s.keys.is_prefix_of(after_command(s, output).keys),
{
    let next = after_command(s, output);
    assert(next.keys.take(s.keys.len() as int) =~= s.keys);
}

/// A run starts with everything to send that its plan names.
pub proof fn law_a_run_starts_with_its_plan(
    url: Seq<char>,
    wallet: Seq<char>,
    skip_invalid: bool,
    existing: Seq<Pubkey>,
    extend: Seq<Pubkey>,
    fresh: Seq<Pubkey>,
)
    ensures
        todo(run_start(url, wallet, skip_invalid, existing, extend, fresh)) == extend + fresh,
{
    assert(extend.skip(0) =~= extend);
    if extend.len() == 0 {
        assert(extend + fresh =~= fresh);
    }
}

/// Each command that succeeds sends the next addresses, in order, or creates the table that they
/// go to. A run that ends well has sent them all.
pub proof fn law_addresses_are_sent_in_order(s: RunState, out: CommandOutput)
    requires
        run_wf(s),
        out.success,
    ensures
        ({
            let next = after_command(s, Ok(out));
            match s.phase {
                PhaseState::Extending { lut, bucket, sent } => todo(s) == chunk_at(bucket, sent)
                    + todo(next) && 0 < chunk_at(bucket, sent).len() <= EXTEND_CHUNK,
                _ => todo(next) == todo(s),
            }
        }),
        s.phase matches PhaseState::Done(Ok(_)) ==> todo(s).len() == 0,
{
    let next = after_command(s, Ok(out));
    match s.phase {
        PhaseState::Extending { lut, bucket, sent } => {
            assert(todo(s) =~= chunk_at(bucket, sent) + todo(next));
        },
        PhaseState::Creating => {
            assert(todo(next) =~= todo(s));
        },
        _ => {},
    }
}

/// A new table is given no more addresses than it holds, and as many as there are or fit.
pub proof fn law_a_new_table_is_filled(s: RunState, out: CommandOutput)
    requires
        run_wf(s),
        s.phase is Creating,
        after_command(s, Ok(out)).phase is Extending,
    ensures
        after_command(s, Ok(out)).phase->bucket.len() == at_most(s.fresh.len(), LUT_MAX as nat),
        after_command(s, Ok(out)).phase->bucket == s.fresh.take(
            at_most(s.fresh.len(), LUT_MAX as nat) as int,
        ),
        after_command(s, Ok(out)).keys.last() == after_command(s, Ok(out)).phase->lut,
{
}

/// Commands that a run can still ask for, at most.
pub open spec fn commands_left(s: RunState) -> nat {
    match s.phase {
        PhaseState::Creating => 2 * s.fresh.len(),
        PhaseState::Extending { lut, bucket, sent } => (2 * (bucket.len() - sent) - 1
            + 2 * s.fresh.len()) as nat,
        PhaseState::Done(_) => 0,
    }
}

/// Every command brings a run nearer to its end.
pub proof fn law_a_run_ends(s: RunState, output: Result<CommandOutput, String>)
    requires
        run_wf(s),
        !(s.phase is Done),
    ensures
        commands_left(after_command(s, output)) < commands_left(s),
{
}

/// A run after some commands came back.
pub open spec fn after_commands(
    s: RunState,
    outputs: Seq<Result<CommandOutput, String>>,
) -> RunState
    decreases outputs.len(),
{
    if outputs.len() == 0 {
        s
    } else {
        after_command(after_commands(s, outputs.drop_last()), outputs.last())
    }
}

/// The addresses that commands added to tables.
pub open spec fn sent_by(s: RunState, outputs: Seq<Result<CommandOutput, String>>) -> Seq<Pubkey>
    decreases outputs.len(),
{
    if outputs.len() == 0 {
        Seq::empty()
    } else {
        let before = sent_by(s, outputs.drop_last());
        match (after_commands(s, outputs.drop_last()).phase, outputs.last()) {
            (PhaseState::Extending { lut, bucket, sent }, Ok(out)) => if out.success {
                before + chunk_at(bucket, sent)
            } else {
                before
            },
            _ => before,
        }
    }
}

/// As long as a run has not failed, what its commands added and what is still to be added make
/// up what there was to add.
pub proof fn law_nothing_is_lost_on_the_way(
    s: RunState,
    outputs: Seq<Result<CommandOutput, String>>,
)
    requires
        run_wf(s),
        !(after_commands(s, outputs).phase matches PhaseState::Done(Err(_))),
    ensures
        run_wf(after_commands(s, outputs)),
        sent_by(s, outputs) + todo(after_commands(s, outputs)) == todo(s),
    decreases outputs.len(),
{
    if outputs.len() == 0 {
        assert(sent_by(s, outputs) + todo(s) =~= todo(s));
    } else {
        let front = outputs.drop_last();
        let before = after_commands(s, front);
        let after = after_commands(s, outputs);
        law_nothing_is_lost_on_the_way(s, front);
        if let Ok(out) = outputs.last() {
            if out.success {
                law_addresses_are_sent_in_order(before, out);
            }
        }
        assert(sent_by(s, outputs) + todo(after) =~= todo(s));
    }
}

/// A group that was populated without an error has every one of its addresses in a table: those
/// that were not stored before are just those that were added.
pub proof fn law_a_populated_group_is_complete(
    url: Seq<char>,
    wallet: Seq<char>,
    all: Seq<Pubkey>,
    existing: Seq<Pubkey>,
    accounts: Seq<Option<Vec<u8>>>,
    outputs: Seq<Result<CommandOutput, String>>,
    k: Pubkey,
)
    requires
        after_commands(
            run_start(
                url,
                wallet,
                true,
                existing,
                to_extend(all, accounts),
                to_create(all, accounts),
            ),
            outputs,
        ).phase matches PhaseState::Done(Ok(_)),
        all.contains(k),
    ensures
        ({
            let run = run_start(
                url,
                wallet,
                true,
                existing,
                to_extend(all, accounts),
                to_create(all, accounts),
            );
            &&& sent_by(run, outputs) == missing(all, stored_in(accounts))
            &&& stored_in(accounts).contains(k) || sent_by(run, outputs).contains(k)
        }),
{
    let run = run_start(
        url,
        wallet,
        true,
        existing,
        to_extend(all, accounts),
        to_create(all, accounts),
    );
    law_the_missing_addresses_are_added(all, accounts, k);
    law_a_run_starts_with_its_plan(
        url,
        wallet,
        true,
        existing,
        to_extend(all, accounts),
        to_create(all, accounts),
    );
    law_nothing_is_lost_on_the_way(run, outputs);
    assert(sent_by(run, outputs) =~= missing(all, stored_in(accounts)));
}

/// What the last existing table has room for goes into that table and no other; what it has no
/// room for goes into new ones. Where nothing is missing, nothing is done.
pub proof fn law_the_last_table_is_extended_first(
    url: Seq<char>,
    wallet: Seq<char>,
    skip_invalid: bool,
    existing: Seq<Pubkey>,
    extend: Seq<Pubkey>,
    fresh: Seq<Pubkey>,
)
    requires
        extend.len() > 0 ==> existing.len() > 0,
    ensures
        ({
            let run = run_start(url, wallet, skip_invalid, existing, extend, fresh);
            &&& run.keys == existing
            &&& run.fresh == fresh
            &&& extend.len() > 0 ==> run.phase == (PhaseState::Extending {
                lut: existing[existing.len() - 1],
                bucket: extend,
                sent: 0,
            })
            &&& extend.len() == 0 && fresh.len() > 0 ==> run.phase is Creating
            &&& extend.len() == 0 && fresh.len() == 0 ==> (run.phase matches PhaseState::Done(
                Ok(_),
            ))
        }),
{
}

/// A command names the table that it extends and the next twenty addresses, or as many as are
/// left, and every command names the cluster and the wallet.
pub proof fn law_a_command_names_its_table(s: RunState)
    requires
        run_wf(s),
    ensures
        match (s.phase, command_of(s)) {
            (PhaseState::Creating, Some(args)) => args.len() == 6 && args[1] == "create"@ && args[3]
                == s.url && args[5] == s.wallet,
            (PhaseState::Extending { lut, bucket, sent }, Some(args)) => {
                let n = if bucket.len() - sent <= 20 {
                    bucket.len() - sent
                } else {
                    20
                };
                &&& args.len() == 9
                &&& args[1] == "extend"@
                &&& args[2] == base58_text(lut)
                &&& args[4] == s.url
                &&& args[6] == s.wallet
                &&& args[7] == "--addresses"@
                &&& n > 0
                &&& args[8] == list_of(bucket.subrange(sent as int, sent + n))
            },
            (PhaseState::Done(_), None) => true,
            _ => false,
        },
{
}

/// A command that succeeds is followed by the next one for the same table, until all its
/// addresses are in; then a table is created for the rest, and where there is no rest the run is
/// over. One that fails is the end, and the error says which it was.
pub proof fn law_a_table_is_extended_to_the_end(
    s: RunState,
    lut: Pubkey,
    bucket: Seq<Pubkey>,
    sent: nat,
    out: CommandOutput,
    why: String,
)
    requires
        s.phase == (PhaseState::Extending { lut, bucket, sent }),
        sent < bucket.len() <= LUT_MAX,
    ensures
        ({
            let next = after_command(s, Ok(out));
            &&& next.keys == s.keys
            &&& next.fresh == s.fresh
            &&& out.success && sent + 20 < bucket.len() ==> next.phase == (PhaseState::Extending {
                lut,
                bucket,
                sent: sent + 20,
            })
            &&& out.success && sent + 20 >= bucket.len() && s.fresh.len() > 0
                ==> next.phase is Creating
            &&& out.success && sent + 20 >= bucket.len() && s.fresh.len() == 0 ==> (
            next.phase matches PhaseState::Done(Ok(_)))
            &&& !out.success ==> next.phase == PhaseState::Done(
                Err(
                    RunError::ExtendFailed { chunk: (sent / 20 + 1) as usize, stderr: out.stderr },
                ),
            )
            &&& after_command(s, Err(why)).phase == PhaseState::Done(Err(RunError::CannotRun(why)))
        }),
{
}

/// A line that announces a table and its address decides, where no line before it announces one.
pub proof fn law_the_announced_address_is_found(
    before: Seq<Seq<char>>,
    address: Seq<char>,
    key: Pubkey,
    after: Seq<Seq<char>>,
    skip_invalid: bool,
)
    requires
        is_base58(address),
        key_spelled(address) == Some(key),
        forall|i: int|
            0 <= i < before.len() ==> !"Lookup Table Address:"@.is_prefix_of(
                trimmed(#[trigger] before[i]),
            ),
    ensures
        announced(
            before.push("Lookup Table Address:"@.push(' ') + address) + after,
            skip_invalid,
        ) == Announced::Table(key),
    decreases before.len(),
{
    let line = "Lookup Table Address:"@.push(' ') + address;
    let lines = before.push(line) + after;
    if before.len() == 0 {
        reveal_strlit("Lookup Table Address:");
        let none = Seq::<char>::empty();
        assert(is_base58_char(address[address.len() - 1]));
        law_trimming_bares_a_text(none, line, none);
        assert(none + line + none =~= line);
        assert(trimmed(line) == line);
        assert("Lookup Table Address:"@.is_prefix_of(line)) by {
            assert(line.subrange(0, "Lookup Table Address:"@.len() as int)
                =~= "Lookup Table Address:"@);
        }
        assert forall|i: int| 0 <= i < address.len() implies !is_white_space(
            #[trigger] address[i],
        ) by {
            assert(is_base58_char(address[i]));
        }
        law_the_last_word_stands_at_the_end("Lookup Table Address:"@, ' ', address);
        assert(lines[0] == line);
    } else {
        let rest = before.skip(1);
        assert forall|i: int| 0 <= i < rest.len() implies !"Lookup Table Address:"@.is_prefix_of(
            trimmed(#[trigger] rest[i]),
        ) by {
            assert(rest[i] == before[i + 1]);
        }
        law_the_announced_address_is_found(rest, address, key, after, skip_invalid);
        assert(lines[0] == before[0]);
        assert(lines.skip(1) =~= rest.push(line) + after);
    }
}

/// Output in which no line starts as an announcement announces nothing; one with such a line but
/// no address at its end is an error, unless such lines do not count.
pub proof fn law_nothing_is_announced_without_an_address(
    lines: Seq<Seq<char>>,
    skip_invalid: bool,
)
    requires
        forall|i: int|
            0 <= i < lines.len() ==> !"Lookup Table Address:"@.is_prefix_of(
                trimmed(#[trigger] lines[i]),
            ) || key_spelled(last_word(trimmed(lines[i]))) is None,
    ensures
        announced(lines, skip_invalid) == if !skip_invalid && exists|i: int|
            0 <= i < lines.len() && "Lookup Table Address:"@.is_prefix_of(
                trimmed(#[trigger] lines[i]),
            ) {
            Announced::Invalid
        } else {
            Announced::Nothing
        },
    decreases lines.len(),
{
    if lines.len() > 0 {
        let rest = lines.skip(1);
        assert forall|i: int| 0 <= i < rest.len() implies !"Lookup Table Address:"@.is_prefix_of(
            trimmed(#[trigger] rest[i]),
        ) || key_spelled(last_word(trimmed(rest[i]))) is None by {
            assert(rest[i] == lines[i + 1]);
        }
        law_nothing_is_announced_without_an_address(rest, skip_invalid);
        assert(lines[0] == lines[0]);
        if exists|i: int|
            0 <= i < lines.len() && "Lookup Table Address:"@.is_prefix_of(
                trimmed(#[trigger] lines[i]),
            ) {
            let i = choose|i: int|
                0 <= i < lines.len() && "Lookup Table Address:"@.is_prefix_of(
                    trimmed(#[trigger] lines[i]),
                );
            if i > 0 {
                assert(rest[i - 1] == lines[i]);
            }
        }
        if exists|i: int|
            0 <= i < rest.len() && "Lookup Table Address:"@.is_prefix_of(
                trimmed(#[trigger] rest[i]),
            ) {
            let i = choose|i: int|
                0 <= i < rest.len() && "Lookup Table Address:"@.is_prefix_of(
                    trimmed(#[trigger] rest[i]),
                );
            assert(lines[i + 1] == rest[i]);
        }
    }
}

/// A table that was created is one of the group from then on, and is extended by the next
/// addresses, as many as it holds. Where the output names no table, or the tool fails, the run is
/// over.
pub proof fn law_a_created_table_is_extended(s: RunState, out: CommandOutput, why: String)
    requires
        s.phase is Creating,
        s.fresh.len() > 0,
    ensures
        ({
            let next = after_command(s, Ok(out));
            let n = if s.fresh.len() <= 256 {
                s.fresh.len() as int
            } else {
                256
            };
            match announced(split_on(out.stdout@, '\n'), s.skip_invalid) {
                Announced::Table(key) if out.success => {
                    &&& next.keys == s.keys.push(key)
                    &&& next.phase == (PhaseState::Extending {
                        lut: key,
                        bucket: s.fresh.subrange(0, n),
                        sent: 0,
                    })
                    &&& next.fresh == s.fresh.subrange(n, s.fresh.len() as int)
                },
                Announced::Invalid if out.success => next.phase == PhaseState::Done(
                    Err(RunError::InvalidAddress(out.stdout)),
                ) && next.keys == s.keys,
                Announced::Nothing if out.success => next.phase == PhaseState::Done(
                    Err(RunError::NoAddress(out.stdout)),
                ) && next.keys == s.keys,
                _ => next.phase == PhaseState::Done(Err(RunError::CreateFailed(out.stderr)))
                    && next.keys == s.keys,
            }
        }),
        after_command(s, Err(why)).phase == PhaseState::Done(Err(RunError::CannotRun(why))),
{
    let n = if s.fresh.len() <= 256 {
        s.fresh.len() as int
    } else {
        256
    };
    assert(s.fresh.take(n) =~= s.fresh.subrange(0, n));
    assert(s.fresh.skip(n) =~= s.fresh.subrange(n, s.fresh.len() as int));
}

/// A run that is over stays as it is.
pub proof fn law_a_finished_run_stays(s: RunState, output: Result<CommandOutput, String>)
    requires
        s.phase is Done,
    ensures
        after_command(s, output) == s,
        command_of(s) is None,
{
}

/// The addresses that commands added to a given table.
pub open spec fn added_to(
    s: RunState,
    outputs: Seq<Result<CommandOutput, String>>,
    table: Pubkey,
) -> Seq<Pubkey>
    decreases outputs.len(),
{
    if outputs.len() == 0 {
        Seq::empty()
    } else {
        let before = added_to(s, outputs.drop_last(), table);
        match (after_commands(s, outputs.drop_last()).phase, outputs.last()) {
            (PhaseState::Extending { lut, bucket, sent }, Ok(out)) => if out.success && lut
                == table {
                before + chunk_at(bucket, sent)
            } else {
                before
            },
            _ => before,
        }
    }
}

/// How many addresses a run is still to add to a given table.
spec fn left_for(s: RunState, table: Pubkey) -> int {
    match s.phase {
        PhaseState::Extending { lut, bucket, sent } => if lut == table {
            bucket.len() - sent
        } else {
            0
        },
        _ => 0,
    }
}

/// How many addresses a run may add to a given table.
spec fn share_of(existing: Seq<Pubkey>, extend: Seq<Pubkey>, table: Pubkey) -> int {
    if existing.contains(table) {
        if table == existing.last() {
            extend.len() as int
        } else {
            0
        }
    } else {
        LUT_MAX as int
    }
}

proof fn lemma_added(
    url: Seq<char>,
    wallet: Seq<char>,
    skip_invalid: bool,
    existing: Seq<Pubkey>,
    extend: Seq<Pubkey>,
    fresh: Seq<Pubkey>,
    outputs: Seq<Result<CommandOutput, String>>,
    table: Pubkey,
)
    requires
        extend.len() > 0 ==> existing.len() > 0,
        extend.len() <= LUT_MAX,
        after_commands(
            run_start(url, wallet, skip_invalid, existing, extend, fresh),
            outputs,
        ).keys.no_duplicates(),
    ensures
        ({
            let start = run_start(url, wallet, skip_invalid, existing, extend, fresh);
            let now = after_commands(start, outputs);
            &&& run_wf(now)
            &&& existing.is_prefix_of(now.keys)
            &&& added_to(start, outputs, table).len() > 0 ==> now.keys.contains(table)
            &&& now.phase matches PhaseState::Extending { lut, .. } ==> now.keys.contains(lut)
            &&& added_to(start, outputs, table).len() + left_for(now, table) <= share_of(
                existing,
                extend,
                table,
            )
        }),
    decreases outputs.len(),
{
    let start = run_start(url, wallet, skip_invalid, existing, extend, fresh);
    if outputs.len() == 0 {
        if existing.len() > 0 {
            assert(existing[existing.len() - 1] == existing.last());
        }
    } else {
        let front = outputs.drop_last();
        let before = after_commands(start, front);
        let now = after_commands(start, outputs);
        law_tables_are_only_added(before, outputs.last());
        assert(before.keys =~= now.keys.take(before.keys.len() as int));
        assert(before.keys.no_duplicates()) by {
            assert forall|i: int, j: int|
                0 <= i < before.keys.len() && 0 <= j < before.keys.len() && i
                    != j implies before.keys[i] != before.keys[j] by {
                assert(before.keys[i] == now.keys[i]);
                assert(before.keys[j] == now.keys[j]);
            }
        }
        lemma_added(url, wallet, skip_invalid, existing, extend, fresh, front, table);
        assert(existing.is_prefix_of(now.keys)) by {
            assert(now.keys.subrange(0, existing.len() as int) =~= before.keys.subrange(
                0,
                existing.len() as int,
            ));
        }
        if before.keys.contains(table) {
            let i = choose|i: int| 0 <= i < before.keys.len() && before.keys[i] == table;
            assert(now.keys[i] == table);
        }
        if let PhaseState::Extending { lut, bucket, sent } = before.phase {
            let i = choose|i: int| 0 <= i < before.keys.len() && before.keys[i] == lut;
            assert(now.keys[i] == lut);
        }
        if before.phase is Creating && now.phase is Extending {
            let lut = now.phase->lut;
            assert(now.keys == before.keys.push(lut));
            assert(now.keys[before.keys.len() as int] == lut);
            if before.keys.contains(lut) {
                let i = choose|i: int| 0 <= i < before.keys.len() && before.keys[i] == lut;
                assert(now.keys[i] == now.keys[before.keys.len() as int]);
            }
            if existing.contains(lut) {
                let i = choose|i: int| 0 <= i < existing.len() && existing[i] == lut;
                assert(before.keys.subrange(0, existing.len() as int)[i] == before.keys[i]);
                assert(before.keys.contains(lut));
            }
        }
    }
}

/// No table is ever given more addresses than there is room for it: of the existing tables only
/// the last one is extended, and by no more than was planned for it; a new one is given no more
/// than a table holds.
pub proof fn law_no_table_overflows(
    url: Seq<char>,
    wallet: Seq<char>,
    skip_invalid: bool,
    existing: Seq<Pubkey>,
    extend: Seq<Pubkey>,
    fresh: Seq<Pubkey>,
    outputs: Seq<Result<CommandOutput, String>>,
    table: Pubkey,
)
    requires
        extend.len() > 0 ==> existing.len() > 0,
        extend.len() <= LUT_MAX,
        after_commands(
            run_start(url, wallet, skip_invalid, existing, extend, fresh),
            outputs,
        ).keys.no_duplicates(),
    ensures
        ({
            let added = added_to(
                run_start(url, wallet, skip_invalid, existing, extend, fresh),
                outputs,
                table,
            );
            if !existing.contains(table) {
                added.len() <= 256
            } else if table == existing[existing.len() - 1] {
                added.len() <= extend.len()
            } else {
                added.len() == 0
            }
        }),
{
    lemma_added(url, wallet, skip_invalid, existing, extend, fresh, outputs, table);
}

/// Where a group is populated, each of its tables, with what is added to it, holds no more than a
/// table holds.
pub proof fn law_a_populated_group_fits_its_tables(
    url: Seq<char>,
    wallet: Seq<char>,
    all: Seq<Pubkey>,
    existing: Seq<Pubkey>,
    accounts: Seq<Option<Vec<u8>>>,
    outputs: Seq<Result<CommandOutput, String>>,
    i: int,
)
    requires
        accounts.len() == existing.len(),
        0 <= i < existing.len(),
        table_in(accounts[i]) matches Some(held) && held.len() <= 256,
        table_in(accounts[accounts.len() - 1]) is Some,
        after_commands(
            run_start(
                url,
                wallet,
                true,
                existing,
                to_extend(all, accounts),
                to_create(all, accounts),
            ),
            outputs,
        ).keys.no_duplicates(),
    ensures
        table_in(accounts[i])->0.len() + added_to(
            run_start(
                url,
                wallet,
                true,
                existing,
                to_extend(all, accounts),
                to_create(all, accounts),
            ),
            outputs,
            existing[i],
        ).len() <= 256,
{
    let extend = to_extend(all, accounts);
    let fresh = to_create(all, accounts);
    let start = run_start(url, wallet, true, existing, extend, fresh);
    let now = after_commands(start, outputs);
    law_no_table_overflows(url, wallet, true, existing, extend, fresh, outputs, existing[i]);
    lemma_added(url, wallet, true, existing, extend, fresh, outputs, existing[i]);
    if existing[i] == existing[existing.len() - 1] && i < existing.len() - 1 {
        let same = now.keys.subrange(0, existing.len() as int);
        assert(same == existing);
        assert(same[i] == now.keys[i]);
        assert(same[existing.len() - 1] == now.keys[existing.len() - 1]);
    }
}

/// The last existing table is filled before a new one is created, and never beyond what it holds.
pub proof fn law_room_is_used_up_first(all: Seq<Pubkey>, accounts: Seq<Option<Vec<u8>>>)
    requires
        accounts.len() > 0,
        table_in(accounts[accounts.len() - 1]) is Some,
        table_in(accounts[accounts.len() - 1])->0.len() <= 256,
    ensures
        ({
            let held = table_in(accounts[accounts.len() - 1])->0.len();
            &&& held + to_extend(all, accounts).len() <= 256
            &&& to_create(all, accounts).len() > 0 ==> held + to_extend(all, accounts).len() == 256
        }),
{
}

/// Without a table there is no room: everything goes into new tables.
pub proof fn law_without_tables_all_is_new(all: Seq<Pubkey>, accounts: Seq<Option<Vec<u8>>>)
    requires
        accounts.len() == 0,
    ensures
        to_extend(all, accounts).len() == 0,
        to_create(all, accounts) == all,
{
    let stored = stored_in(accounts);
    lemma_nothing_is_stored(all, stored);
    assert(to_create(all, accounts) =~= all);
}

proof fn lemma_nothing_is_stored(all: Seq<Pubkey>, stored: Set<Pubkey>)
    requires
        forall|k: Pubkey| !stored.contains(k),
    ensures
        missing(all, stored) == all,
    decreases all.len(),
{
    let is_missing = |k: Pubkey| !stored.contains(k);
    if all.len() == 0 {
        assert(missing(all, stored) =~= all);
    } else {
        let front = all.drop_last();
        lemma_nothing_is_stored(front, stored);
        assert(all =~= front.push(all.last()));
        front.lemma_filter_push(all.last(), is_missing);
    }
}

/// What a table holds is not added again, and what none holds is.
pub proof fn law_just_what_no_table_holds_is_added(
    all: Seq<Pubkey>,
    accounts: Seq<Option<Vec<u8>>>,
    k: Pubkey,
)
    requires
        all.contains(k),
    ensures
        (to_extend(all, accounts) + to_create(all, accounts)).contains(k) <==> forall|i: int|
            0 <= i < accounts.len() ==> match #[trigger] accounts[i] {
                Some(data) => match table_addresses(data@) {
                    Ok(held) => !held.contains(k),
                    Err(_) => true,
                },
                None => true,
            },
{
    law_the_missing_addresses_are_added(all, accounts, k);
    if stored_in(accounts).contains(k) {
        let i = choose|i: int|
            0 <= i < accounts.len() && table_in(#[trigger] accounts[i]) is Some && table_in(
                accounts[i],
            )->0.contains(k);
        assert(accounts[i] is Some);
    } else {
        assert forall|i: int| 0 <= i < accounts.len() implies match #[trigger] accounts[i] {
            Some(data) => match table_addresses(data@) {
                Ok(held) => !held.contains(k),
                Err(_) => true,
            },
            None => true,
        } by {
            if table_in(accounts[i]) is Some {
                assert(!table_in(accounts[i])->0.contains(k));
            }
        }
    }
}

/// The addresses of a list are read piece by piece, in order; white space around a piece does not
/// matter, and a piece that spells no address is left out.
pub proof fn law_lists_are_read_piece_by_piece(pieces: Seq<Seq<char>>, piece: Seq<char>)
    ensures
        keys_spelled(Seq::empty()) == Seq::<Pubkey>::empty(),
        keys_spelled(pieces.push(piece)) == match base58_key(trimmed(piece)) {
            Ok(key) => keys_spelled(pieces).push(key),
            Err(_) => keys_spelled(pieces),
        },
{
    assert(pieces.push(piece).drop_last() =~= pieces);
}

/// A group is populated from what its existing tables hold: it keeps them, its last one is
/// extended by what that has room for, and the rest goes into new ones. A table that cannot be
/// read is an error.
pub proof fn law_a_group_is_populated_from_its_tables(
    url: &str,
    wallet: &str,
    all: &Vec<Pubkey>,
    existing: &Vec<Pubkey>,
    accounts: &Vec<Option<Vec<u8>>>,
    r: Result<LutRun, TablesError>,
)
    requires
        call_ensures(populate_group, (url, wallet, all, existing, accounts), r),
        accounts@.len() == existing@.len(),
    ensures
        match r {
            Ok(run) => {
                &&& forall|i: int|
                    0 <= i < accounts@.len() ==> table_in(#[trigger] accounts@[i]) is Some
                &&& run@.keys == existing@
                &&& run@.url == url@
                &&& run@.wallet == wallet@
                &&& run@.skip_invalid
                &&& todo(run@) == to_extend(all@, accounts@) + to_create(all@, accounts@)
                &&& run@.phase matches PhaseState::Extending { lut, bucket, sent } ==> lut
                    == existing@[existing@.len() - 1] && bucket == to_extend(all@, accounts@)
                    && sent == 0
                &&& run@.fresh == to_create(all@, accounts@)
            },
            Err(TablesError::NotFound(key)) => exists|i: int|
                0 <= i < accounts@.len() && #[trigger] accounts@[i] is None && existing@[i] == key,
            Err(TablesError::Undecodable { key, message }) => exists|i: int|
                0 <= i < accounts@.len() && existing@[i] == key && (
                #[trigger] accounts@[i] matches Some(data) && (table_addresses(data@) matches Err(e)
                    && e == message@)),
        },
{
    assert(paired(existing@, accounts@) == accounts@);
    if let Ok(run) = r {
        law_a_run_starts_with_its_plan(
            url@,
            wallet@,
            true,
            existing@,
            to_extend(all@, accounts@),
            to_create(all@, accounts@),
        );
        assert(run@.fresh == to_create(all@, accounts@));
    }
}

/// Runs start and go on as the states of this module say, and the pending command is that of the
/// state.
pub proof fn law_runs_follow_their_states(
    url: &str,
    wallet: &str,
    skip_invalid: bool,
    existing: &Vec<Pubkey>,
    plan: GroupPlan,
    start: LutRun,
    run: LutRun,
    output: Result<CommandOutput, String>,
    next: LutRun,
    args: Option<Vec<String>>,
)
    requires
        call_ensures(LutRun::start, (url, wallet, skip_invalid, existing, plan), start),
        call_ensures(LutRun::step, (run, output), next),
        call_ensures(LutRun::command, (&run,), args),
    ensures
        start@ == run_start(url@, wallet@, skip_invalid, existing@, plan.extend@, plan.fresh@),
        next@ == after_command(run@, output),
        match args {
            Some(args) => command_of(run@) == Some(views(args@)),
            None => command_of(run@) is None,
        },
{
}

/// A list of tables that is printed for the environment reads back as the tables.
pub proof fn law_printed_tables_read_back(
    keys: &Vec<Pubkey>,
    text: String,
    back: Vec<Pubkey>,
    printed: &str,
)
    requires
        call_ensures(key_list, (keys,), text),
        printed@ == text@,
        call_ensures(read_existing_luts, (Some(printed),), back),
    ensures
        back@ == keys@,
{
    if keys@.len() == 0 {
        assert(back@ =~= keys@);
    }
}

/// A line for the environment is the variable, an equals sign and the list.
pub proof fn law_a_line_sets_its_variable(name: &str, keys: &Vec<Pubkey>, line: String)
    requires
        call_ensures(env_line, (name, keys), line),
    ensures
        line@.len() > name@.len(),
        line@.take(name@.len() as int) == name@,
        line@[name@.len() as int] == '=',
        line@.skip(name@.len() as int + 1) == list_of(keys@),
{
    assert(line@.take(name@.len() as int) =~= name@);
    assert(line@.skip(name@.len() as int + 1) =~= list_of(keys@));
}

/// There is nothing to sync where no group has a table, and a plan without an address is up to
/// date.
pub proof fn law_nothing_is_synced_without_tables(
    g1: &Vec<Pubkey>,
    g2: &Vec<Pubkey>,
    g3: &Vec<Pubkey>,
    nothing: bool,
    plan: &GroupPlan,
    done: bool,
)
    requires
        call_ensures(nothing_to_sync, (g1, g2, g3), nothing),
        call_ensures(GroupPlan::is_up_to_date, (plan,), done),
    ensures
        nothing <==> g1@.len() + g2@.len() + g3@.len() == 0,
        done <==> plan.extend@.len() + plan.fresh@.len() == 0,
{
}

/// What a run gives back once it is over are its tables, or its error; before that it gives itself
/// back.
pub proof fn law_a_run_gives_back_its_tables(
    run: LutRun,
    r: Result<Result<Vec<Pubkey>, RunError>, LutRun>,
)
    requires
        call_ensures(LutRun::into_result, (run,), r),
    ensures
        match run@.phase {
            PhaseState::Done(Ok(_)) => r matches Ok(Ok(keys)) && keys@ == run@.keys,
            PhaseState::Done(Err(e)) => r matches Ok(Err(error)) && error == e,
            _ => r matches Err(same) && same == run,
        },
{
}

/// The account at a place is a table that holds the given addresses.
pub open spec fn is_table(accounts: Seq<Option<Vec<u8>>>, i: int, addresses: Seq<Pubkey>) -> bool {
    accounts[i] matches Some(data) && table_addresses(data@) == Ok::<Seq<Pubkey>, Seq<char>>(
        addresses,
    )
}

/// Every account that comes with a key is read, and no other: the stored addresses are just those of
/// these tables, and the room is that of the last of them.
pub proof fn law_every_table_is_read(
    keys: &Vec<Pubkey>,
    accounts: &Vec<Option<Vec<u8>>>,
    tables: Tables,
    i: int,
    addresses: Seq<Pubkey>,
    k: Pubkey,
)
    requires
        call_ensures(read_tables, (keys, accounts), Ok(tables)),
    ensures
        0 <= i < keys@.len() && i < accounts@.len() ==> exists|known: Seq<Pubkey>| #[trigger]
            is_table(accounts@, i, known),
        0 <= i < keys@.len() && i < accounts@.len() && is_table(accounts@, i, addresses)
            && addresses.contains(k) ==> tables.stored@.contains(k),
        tables.stored@.contains(k) ==> exists|j: int, known: Seq<Pubkey>|
            0 <= j < keys@.len() && j < accounts@.len() && #[trigger] is_table(accounts@, j, known)
                && known.contains(k),
        0 <= i < keys@.len() && i < accounts@.len() && (i == keys@.len() - 1 || i == accounts@.len()
            - 1) && is_table(accounts@, i, addresses) ==> tables.last_space == if addresses.len()
            < 256 {
            256 - addresses.len()
        } else {
            0
        },
        keys@.len() == 0 || accounts@.len() == 0 ==> tables.last_space == 0,
{
    let mine = paired(keys@, accounts@);
    if 0 <= i < keys@.len() && i < accounts@.len() {
        assert(mine[i] == accounts@[i]);
        assert(table_in(mine[i]) is Some);
        assert(is_table(accounts@, i, table_in(mine[i])->0));
        if is_table(accounts@, i, addresses) && addresses.contains(k) {
            assert(stored_in(mine).contains(k));
        }
    }
    if tables.stored@.contains(k) {
        let j = choose|j: int|
            0 <= j < mine.len() && table_in(#[trigger] mine[j]) is Some && table_in(
                mine[j],
            )->0.contains(k);
        assert(mine[j] == accounts@[j]);
        assert(is_table(accounts@, j, table_in(mine[j])->0));
    }
}

/// Reading fails on the first account with a key that is not a table, and says which it is.
pub proof fn law_the_first_bad_table_is_told(
    keys: &Vec<Pubkey>,
    accounts: &Vec<Option<Vec<u8>>>,
    error: TablesError,
)
    requires
        call_ensures(read_tables, (keys, accounts), Err(error)),
    ensures
        exists|i: int|
            0 <= i < keys@.len() && i < accounts@.len() && (forall|j: int|
                0 <= j < i ==> (#[trigger] accounts@[j] matches Some(data) && table_addresses(
                    data@,
                ) is Ok)) && match error {
                TablesError::NotFound(key) => key == keys@[i] && #[trigger] accounts@[i] is None,
                TablesError::Undecodable { key, message } => key == keys@[i] && (
                accounts@[i] matches Some(data) && table_addresses(data@) == Err::<
                    Seq<Pubkey>,
                    Seq<char>,
                >(message@)),
            },
{
    let mine = paired(keys@, accounts@);
    let i = choose|i: int|
        0 <= i < mine.len() && table_in(#[trigger] mine[i]) is None && (forall|j: int|
            0 <= j < i ==> table_in(#[trigger] mine[j]) is Some) && match error {
            TablesError::NotFound(key) => key == keys@[i] && mine[i] is None,
            TablesError::Undecodable { key, message } => key == keys@[i] && (
            mine[i] matches Some(data) && (table_addresses(data@) matches Err(known) && known
                == message@)),
        };
    assert(mine[i] == accounts@[i]);
    assert forall|j: int| 0 <= j < i implies (#[trigger] accounts@[j] matches Some(data)
        && table_addresses(data@) is Ok) by {
        assert(mine[j] == accounts@[j]);
        assert(table_in(mine[j]) is Some);
    }
}

/// Whatever comes in, a run stays one with its endpoint and its wallet, and takes announcements as
/// it did.
pub proof fn law_a_run_keeps_its_settings(
    run: LutRun,
    output: Result<CommandOutput, String>,
    next: LutRun,
)
    requires
        call_ensures(LutRun::step, (run, output), next),
    ensures
        next@.url == run@.url,
        next@.wallet == run@.wallet,
        next@.skip_invalid == run@.skip_invalid,
{
}

}
