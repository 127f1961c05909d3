# libblood

Rules and algorithms of Bloody Battle (Sichuan) mahjong, written in Verus. Every function in
`src/` carries a contract that Verus proves, except four that call outside crates and whose
contracts are trusted: `agari::hash_seed` (ahash), `env_core::shuffle_deck` (rand), and
`board::kyoku_seed` (sha3) with `board::chacha12_shuffle` (rand_chacha).

## Layout

- `src/tile.rs`, `src/hand.rs`, `src/mjai.rs`: tiles, hand strings and game events.
- `src/shanten.rs`, `src/division.rs`, `src/complete.rs`: shanten numbers as the least number
  of tiles a hand lacks, divisions of a hand into melds and a pair, and the proof that the two
  agree on complete hands.
- `src/agari.rs`, `src/point.rs`, `src/ding_que.rs`: wins, fan and points, and the void-suit
  rule.
- `src/state/`: one seat's state through a hand (`update`), the checks on its reactions, what
  an agent reads off it, and the invariant every accepted event keeps.
- `src/settle.rs`: payments for kans and wins, the settlement at an exhaustive draw, turn order
  and the choice among the seats' reactions.
- `src/env_core.rs`: a simplified game environment for batched self-play.
- `src/board.rs`: the seeded deal of a hand (13 tiles per seat and the wall).
- `src/grp.rs`, `src/game_score.rs`, `src/rankings.rs`, `src/result.rs`: void-suit features
  of a hand, what a game log says about scores, rankings and the outcome of a hand.
- `src/sp.rs`, `src/tsumogiri.rs`, `src/consts.rs`: the hand-and-wall state of the
  single-player calculator, the tsumogiri agent, and constants.
- `app/`: file and JSON input and output, and the floating-point void-suit cost model.
- `tests/`: tests on concrete values.
