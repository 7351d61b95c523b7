# chkobba

A verified engine for Chkobba, the Tunisian forty-card fishing game, with a
terminal front end.

- `src/` is the library, proved with Verus:
  - `card.rs`: suits, ranks, card labels and colours, the forty-card deck;
  - `coin.rs`: a coin drawn at given odds (the first dealer's draw);
  - `capture.rs`: the capture rule of a turn (one card of equal value, else
    two, else three adding up to it; the first in table order);
  - `cpu.rs`: the CPU opponent's scoring of candidate moves and its cut-card rule;
  - `game.rs`: the phases of a match (cut, deal, turns, end), dealing, turns,
    the final sweep, and the accounting of every card;
  - `scoring.rs`: the end-of-match scoreboard;
  - `stats.rs`: historical statistics: wins, win streaks and Chkobbas;
  - `input.rs`: typed answers and the card-selection menu;
  - `audio.rs`: the mute switch.
- `app/` is the interactive program: terminal input and output, sound
  playback, and the statistics file. The sound effects are read at run time
  from `assets/` (`shuffle.mp3`, `nice_chkobba.mp3`, `table_slam.mp3`,
  `sweep.mp3`, `victory_clap.mp3`, `lost_game.mp3`); a missing file is
  skipped silently.
- `tests/` exercises the library on concrete games.
