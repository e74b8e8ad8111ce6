# stampede

Batch processing for large media libraries: media containers found under
the configured folders are either transcoded into a target video codec or
have their dead roll (spans that are both black and silent) cut out.

The library in `src/` holds the decisions and is verified with Verus:

- `media`: which files are media containers, the temporary output path,
  codec names, stream kinds and time-base conversions.
- `config`: the configuration, with encoder options per codec.
- `commands`: the layering of configuration sources and the command-line
  overrides; `commands::transcode` routes streams to transcoding or copying;
  `commands::deadroll` holds the span algebra (canonical form, intersection,
  snapping to keyframes, timestamp shifting) behind dead roll removal.
- `classic`: the single-command variant of the tool.

Times in the dead roll pipeline are whole microseconds. The program in
`app/` parses the command line, reads the configuration through figment,
walks folders on threads and drives ffmpeg with the library's decisions.
