//! Whether what a chain store holds is a chain to start from.
//!
//! The store is read by the caller. What it found, it puts down as plain
//! facts; here they are judged, in the order in which they are looked at
//! when a chain is loaded.

use vstd::prelude::*;

verus! {

/// Why a stored chain cannot be loaded.
#[derive(Clone, Copy, Debug, PartialEq, Eq, Structural)]
pub enum BlockchainError {
    /// The genesis block of the network is not stored on the main chain.
    InvalidGenesisBlock,
    /// The store lacks a block that the main chain needs.
    FailedLoadingMainChain,
    /// What is stored does not fit together.
    InconsistentState,
}

/// What kind of block is stored in a place.
#[derive(Clone, Copy, Debug, PartialEq, Eq, Structural)]
pub enum StoredBlock {
    /// A micro block.
    Micro,
    /// A macro block, which may be an election block.
    Macro { election: bool },
}

/// What the store holds about the head of the main chain.
#[derive(Clone, Copy, Debug, PartialEq, Eq, Structural)]
pub struct StoredHead {
    /// The number of the head block.
    pub block_number: u32,
    /// Whether the state root of the head block is the hash of the accounts
    /// as stored.
    pub state_root_matches: bool,
}

/// What was found in a chain store that has a head.
#[derive(Clone, Copy, Debug, PartialEq, Eq, Structural)]
pub struct StoredChain {
    /// Whether the genesis block of the network is on the main chain;
    /// `None` if it is not stored at all.
    pub genesis_on_main_chain: Option<bool>,
    /// The head of the main chain; `None` if it is not stored.
    pub head: Option<StoredHead>,
    /// The block in the place of the last macro block; `None` if none is
    /// stored there.
    pub macro_head: Option<StoredBlock>,
    /// The block in the place of the last election block; `None` if none
    /// is stored there.
    pub election_head: Option<StoredBlock>,
    /// The block that the election head names as the election before it;
    /// `None` if it is not stored.
    pub previous_election: Option<StoredBlock>,
}

/// Where the slots of the epoch before come from.
#[derive(Clone, Copy, Debug, PartialEq, Eq, Structural)]
pub enum PreviousSlots {
    /// From the election block before the election head.
    FromPreviousElection,
    /// There is no election before: the slots are the default ones.
    Default,
}

/// The judgement on a stored chain: the first of the checks that fails
/// decides.
///
/// The genesis block has to be on the main chain. The head has to be
/// stored, and its state root has to be the hash of the accounts. The last
/// macro block has to be stored and be a macro block. The last election
/// block has to be stored, be a macro block, and be an election block. The
/// election before it, if stored, has to be an election block too.
pub open spec fn judge(chain: StoredChain) -> Result<PreviousSlots, BlockchainError> {
    if chain.genesis_on_main_chain != Some(true) {
        Err(BlockchainError::InvalidGenesisBlock)
    } else if chain.head is None {
        Err(BlockchainError::FailedLoadingMainChain)
    } else if !chain.head->0.state_root_matches {
        Err(BlockchainError::InconsistentState)
    } else if chain.macro_head is None {
        Err(BlockchainError::FailedLoadingMainChain)
    } else if chain.macro_head->0 is Micro {
        Err(BlockchainError::InconsistentState)
    } else if chain.election_head is None {
        Err(BlockchainError::FailedLoadingMainChain)
    } else if chain.election_head->0 != (StoredBlock::Macro { election: true }) {
        Err(BlockchainError::InconsistentState)
    } else {
        match chain.previous_election {
            None => Ok(PreviousSlots::Default),
            Some(StoredBlock::Macro { election: true }) => Ok(PreviousSlots::FromPreviousElection),
            Some(_) => Err(BlockchainError::InconsistentState),
        }
    }
}

/// Judges a stored chain, and says where the slots of the epoch before
/// come from if the chain can be loaded.
pub fn check_stored_chain(chain: &StoredChain) -> (r: Result<PreviousSlots, BlockchainError>)
    ensures
        r == judge(*chain),
{
    match chain.genesis_on_main_chain {
        Some(true) => {},
        _ => {
            return Err(BlockchainError::InvalidGenesisBlock);
        },
    }
    let head = match chain.head {
        Some(head) => head,
        None => {
            return Err(BlockchainError::FailedLoadingMainChain);
        },
    };
    if !head.state_root_matches {
        return Err(BlockchainError::InconsistentState);
    }
    match chain.macro_head {
        None => {
            return Err(BlockchainError::FailedLoadingMainChain);
        },
        Some(StoredBlock::Micro) => {
            return Err(BlockchainError::InconsistentState);
        },
        Some(StoredBlock::Macro { election }) => {},
    }
    match chain.election_head {
        None => {
            return Err(BlockchainError::FailedLoadingMainChain);
        },
        Some(StoredBlock::Micro) => {
            return Err(BlockchainError::InconsistentState);
        },
        Some(StoredBlock::Macro { election }) => {
            if !election {
                return Err(BlockchainError::InconsistentState);
            }
        },
    }
    match chain.previous_election {
        None => Ok(PreviousSlots::Default),
        Some(StoredBlock::Macro { election }) => {
            if election {
                Ok(PreviousSlots::FromPreviousElection)
            } else {
                Err(BlockchainError::InconsistentState)
            }
        },
        Some(StoredBlock::Micro) => Err(BlockchainError::InconsistentState),
    }
}

/// How many blocks the transaction cache still lacks once the head of
/// number `block_number` is in it: what is left of the validity `window`
/// after the blocks up to the head.
pub fn missing_blocks(window: u32, block_number: u32) -> (r: u32)
    requires
        block_number < u32::MAX,
    ensures
        r == (if window > block_number + 1 {
            window - (block_number + 1)
        } else {
            0
        }),
{
    let held = block_number + 1;
    if window > held {
        window - held
    } else {
        0
    }
}

/// A chain that loads has its genesis block on the main chain, its head
/// consistent with the accounts, and macro and election heads that are what
/// they are taken for.
pub proof fn law_loaded_chain_is_consistent(chain: StoredChain)
    requires
        judge(chain) is Ok,
    ensures
        chain.genesis_on_main_chain == Some(true),
        chain.head matches Some(h) && h.state_root_matches,
        chain.macro_head matches Some(StoredBlock::Macro { .. }),
        chain.election_head == Some(StoredBlock::Macro { election: true }),
        chain.previous_election is None <==> judge(chain) == Ok::<
            PreviousSlots,
            BlockchainError,
        >(PreviousSlots::Default),
{
}

} // verus!
