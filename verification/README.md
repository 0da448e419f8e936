# shivarthu

The logic of the Shivarthu pallets — citizen profiles validated by Schelling
games, juror sortition, department councils, tags and posts — as a library
verified with Verus. Each pallet's storage is a plain struct; each call is a
method whose contract states its result and the new storage.

Layout:

- `src/sortition_sum_tree.rs`, `src/sum_tree_math.rs`, `src/sortition_sum_game.rs`:
  k-ary sum trees of juror stakes, set, read and drawn from; the draw
  intervals of the accounts are proved to split `0..total`, each as long as
  the account's stake, and the root to hold the sum of all stakes.
- `src/template.rs`: the profile validation game (funding, challenge, periods,
  juror staking and drawing, commit and reveal, incentives).
- `src/election.rs`, `src/npos.rs`: council elections with sequential
  Phragmén from `sp-npos-elections`.
- `src/profile_validation.rs`, `src/schelling_game_shared.rs`: crowdfunded
  profile validation and the shared game phases.
- `src/tags.rs`, `src/lex.rs`: department tags in lexicographic order with downvotes.
- `src/posts.rs`, `src/spaces.rs`, `src/support.rs`, `src/positive_externality.rs`:
  content, posts and their threads.
- `src/score_game.rs`, `src/ubi.rs`, `src/department_funding.rs`,
  `src/project_tips.rs`, `src/shared_storage.rs`, `src/rpc.rs`: the smaller pallets.
- `app/lib.rs`: the queries the RPC servers answer, over the library.

Currency movements are not performed by the library: calls take whether the
payer can pay and return the transfers, reserves and slashes to perform.
