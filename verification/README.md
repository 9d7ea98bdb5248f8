# beam-agent

The agent of the Beam remote desktop: it runs a virtual X display, captures and
encodes it, and acts on the input of a browser.

- `src/` is the library, verified with Verus: what the agent decides and computes.
- `app/` is the program around it: processes, files, sockets, X11, GStreamer,
  PulseAudio and WebRTC.
- `tests/` runs the library on concrete values.

## The library

| Module | What it holds |
| --- | --- |
| `cli`, `session` | command line, settings that follow from the session |
| `display`, `gpu`, `desktop`, `desktop_config` | Xorg configurations, programs to start, files to write and to delete |
| `encoder`, `h264`, `capture_loop`, `abr`, `peer` | encoder choice and pipeline, bit streams, the capture thread's turns, adaptive bitrate, codecs |
| `audio`, `cursor` | audio frames, cursor shapes |
| `dispatch`, `input` | what becomes of an input event, fake X11 events |
| `clipboard`, `clipboard_sync`, `filetransfer` | clipboard text, files to and from the browser |
| `float_bits`, `double`, `number` | 64-bit floating-point numbers, exact to the last bit |
| `text`, `json`, `paths`, `command` | text, JSON strings, file names, programs with their arguments |

Floating-point numbers are passed to the library by their bits, and computed with in
whole numbers. What the host says (files that exist, output of programs, replies of
the X server) is passed as values, so that every answer of the host is covered.
