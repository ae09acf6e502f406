# autosub

The core of the AutoSub subtitle generator, verified with Verus: subtitle
post-processing, parsing of the recognisers' output, the model catalogue and
readiness checks, the transcription cache, and the command lines and error
reports of ffmpeg, ffprobe, whisper-cli and the SenseVoice script.

Times are integer microseconds throughout the library; percentages are
millionths of a percent.

## Layout

- `src/` — the verified library (one module per concern):
  - `post_process` — merge, pad, split, line-break, de-overlap and round
    subtitles, with the laws they keep;
  - `text`, `srt`, `subtitle` — text and number reading used by the rest;
  - `model_manager`, `environment` — the model catalogue, readiness of the
    model files (given a probe of file sizes) and the environment audit;
  - `cache` — cache metadata, fingerprint and paths;
  - `sensevoice`, `whisper`, `ffmpeg` — arguments, output parsing and errors
    of the external programs;
  - `pipeline` — the job's preflight, stages and progress, and the reading
    back of cached SRT files;
  - `error`, `thermal` — error type and thread counts.
- `tests/` — tests run against the compiled library.
- `app/` — the I/O around the library: file system, processes, JSON
  decoding, logging, and serde/thiserror copies of the library's types.
