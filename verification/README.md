# whisper

Speech recognition on a microcontroller, with the parts that decide,
parse, address and count verified by [Verus](https://github.com/verus-lang/verus).

A board records twelve seconds of speech, turns them into log-mel tiles,
runs an encoder and a decoder layer by layer on an NPU, and prints the text.
It has far less memory than the model: weights stream in from a stick, a
card or a host, and activations spill to scratch blocks on the same storage.

## Layout

* `src/` is the library. Its functions state what they return for every
  input that they take, and nothing in it panics or overflows. Two things are
  taken on trust: what `fixed` adds with saturation (`hal::pdm`), and what
  `object` finds in an executable (`host`).
* `tests/` runs it on concrete values.
* `app/` is the program around it: the block server for the development
  link, the driver of a board on a debug probe, the float kernels, and the
  board's side, which carries the library's scripts and machines out over
  traits for its hardware (`device`, `mailbox`, `card`, `stick`, `probe`).

## The library

* Audio: `capture` (windows, recording, the two mel passes, endpointing),
  `mel` (frame and transform indices), `pdm`.
* Model: `encoder`, `cross` and `decoder` write the phases as scripts of
  steps over buffers; `script` says when a step may run, and the phases are
  proved to read only what was written and never to touch a buffer that a
  transfer still owns. `attention`, `kernels`, `dsp`, `q4` and `lm` are the
  integer kernels; `heads` are whole attention heads over any softmax row;
  `decode` is the token loop.
* Weights and image: `image`, `names`, `plan`, `loader`, `pipe`, `slot`,
  `layout`.
* Storage: `storage`, `usb`, `usbproto`, `sd`, `mockblk`, `ioq`, and
  `usbdev` with `server` for the development link.
* Board: `standalone`, `stats`, `mailbox`, `params`, `display`, `power`,
  `probe` and `hal`.
* Host: `host`, `hostdec`.

Floating point is not verified. The library works on what surrounds it:
scales are carried as bit patterns, logits and levels as integer keys in the
same order, and the kernels' integer sums are exact.

Theorems that relate several functions are public proof functions whose
names begin with `law_`.
