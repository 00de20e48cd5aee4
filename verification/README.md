# crystallized_time

A disordered spin chain with a periodic drive (a classical "time crystal")
played as an instrument: zero-crossings of selected sites become MIDI
gates, the domain walls between ordered regions become held wall voices,
and the chain's magnetization drives a substrate clock. OSC carries live
parameter changes in and events and state out.

## Layout

- `src/` — the verified library (Verus). It holds the integer and text
  logic of the program, each public function with a contract:
  - `config_file` — validation of the routing tables of the configuration
    file (`voice_N` keys, channel ranges, duplicate channels, site indices)
    and the error texts;
  - `ranges` — the `low:high` command-line ranges and their overrides;
  - `quantizer` — scales and nearest-tone quantization;
  - `midi` — MIDI byte encoding, mono priority per channel, the shutdown
    sequence;
  - `scheduler` — the note-off queue, released in deadline order;
  - `wall_midi` — round-robin channel allocation and voice stealing for
    wall voices;
  - `walls`, `debounce`, `modulation`, `perturbation`, `osc`, `tui`,
    `sweep`, `text`, `chain_id`, `chain`, `config` — the remaining pieces.
- `tests/` — tests of the library on concrete values.
- `app/` — the program around it: the floating-point simulation, MIDI and
  OSC I/O, the terminal monitor, configuration-file reading, and the
  phase-diagram sweep (`crystallized_time sweep ...`).
