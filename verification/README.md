# MeetingHear

Transcription of meetings with rolling minutes by a language model. `src/` is the
library, written for Verus: executable Rust whose contracts are proved. `app/` is
the program around it: devices, files, HTTP, threads, the window.

- `audio`: sources and mixing, speech detection, files
- `pipeline`: cutting speech into utterances, the job queue, recognition, minutes
- `asr`: recognition services, cleaning and judging of what they return
- `ai`: language models, prompts, merging of minutes
- `session`: transcripts and their exports
- `settings`, `commands`, `diagnostics`, `events`: the rest of what the program
  decides

Floating point is not verified. Samples and levels are carried as bit patterns
(`num`); where the library compares them, it does so by the order of IEEE 754, and
where it needs a sum or a level, the caller hands it the arithmetic.

Functions whose names begin with `law_` state what holds across the library: that
no reply of a recognition service is lost, that doubtful text stays out of the
minutes, that an update that failed is repeated, that utterances stay in order and
never overlap, that requests do not grow with the meeting.
