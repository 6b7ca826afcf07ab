# hotstuff_rs

The logic of a HotStuff-style BFT state machine replication replica, written in Verus: every
function in `src/` carries a `requires`/`ensures` contract that Verus proves.

## Layout

- `src/types.rs`, `src/validator_set.rs`, `src/update_sets.rs`: basic data types, validator sets
  with their powers and quorums, and the app state and validator set updates that blocks make.
- `src/crypto.rs`: hashing, signing and verifying, and the byte encodings that are signed. The
  calls into `sha2`, `ed25519-dalek` and `borsh` sit behind small trusted wrappers whose
  contracts name their results.
- `src/block.rs`: blocks, their hashes, and their correctness check.
- `src/block_tree/`: the block tree (blocks, committed chain, app state, validator set state,
  locked and highest certificates), the safety rules (`safe_pc`, `safe_block`, `safe_nudge`,
  `pc_to_lock`, `block_to_commit`), and read-only snapshots.
- `src/application.rs`: the view of the block tree that an app sees while producing or
  validating a block, with pending ancestor updates applied.
- `src/hotstuff/`: certificates and vote collection, the protocol's messages, leader and voter
  roles, and the participant's decisions as functions from state and event to next state and
  action.
- `src/block_sync/`: the block sync client's server selection and blacklisting, the steps of a
  sync session (what to request, which blocks of a response to insert, when the session ends and
  whether its server kept its promise), and the server's answers and advertisements.
- `src/networking/`: the buffer of progress messages received for future views.
- `src/msg_types.rs`: certificates over a fixed, sorted set of participants.
- `src/events.rs`: the events that the replica publishes.
- `app/`: ordinary Rust around the library: the threads that run the protocol loop, block sync
  and the event bus, and logging.
- `tests/`: tests of the library on concrete values.

## Main properties proved

- Two quorums of one validator set share more than a third of its power.
- Committing only extends the committed chain; the committed height and the highest
  certificate's view never decrease.
- After a `Commit` or `Decide` certificate for a block of the tree, the committed height is at
  least that block's height; a child of a block that updates the validator set is safe only
  under a `Decide` certificate.
- The app's view of the state at a block equals the state that committing that block's branch
  would produce.
- A replica hears at most one proposal or nudge per leader in a view, from at most two
  leaders, and sends at most one phase vote per view.
- Every proposer is a validator, and once the latest validator set update is decided, the only
  proposer of a view is its leader in the committed validator set.
- A block written to the tree reads back unchanged after any later updates, view changes and
  insertions of other blocks.
- A certificate built from a quorum of signatures collected by the aggregator is valid.
- The progress message buffer never holds more bytes than its capacity.
