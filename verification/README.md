# ttplayer

The logic of the TTPlayer-Next desktop music player as a Verus library.
Every function in `src/` carries a contract; Verus proves it of every
function except the small trusted wrappers around outside calls, whose
contracts it believes without proof.

- `src/` — the verified library: LRC lyrics parsing, writing and timing,
  the online lyrics provider's keys and response handling, playlists and
  play modes, the playback transport state machine and decode-loop
  decisions, the crossfade and fade state machines, the sample ring buffer,
  codec selection, PCM and WAV byte layouts, tag edits and metadata,
  skins and their CSS, desktop lyrics settings, and text helpers.
  Calls into outside crates (`std::path`, serde_json, base64, rand, dirs,
  chardetng, encoding_rs, oxideav-ac3) go through those trusted wrappers
  (marked `#[verifier::external_body]`), whose contracts name or describe
  their results and are trusted, not proved.
- `tests/` — tests run against the compiled library.
- `app/` — the unverified shell around it: file and device I/O, threads,
  decoding with symphonia, tags with lofty, floating-point DSP (equaliser,
  surround, spectrum, resampling), serde records, and skin archives.

Laws the library promises are stated as public proof functions named
`lemma_*` beside the functions they speak of.
