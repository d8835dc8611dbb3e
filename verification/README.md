# cocuyo

Ambient lighting for smart bulbs: screen regions are sampled, reduced to a
colour each, and sent to WiZ bulbs.

- `src/` is the library, written in Verus. Colour sampling (average, brightest,
  darkest, dominant palette bin), bulb colour mapping and change detection,
  bulb discovery and selection, the recording state machine, frame buffer
  layouts and pixel conversions, texture and DMA-BUF format tables, and the
  configuration defaults all carry contracts, and the laws that relate them are
  stated as proof functions.
- `app/` is the command-line program around it: configuration files, bulb
  discovery and UDP traffic, and the asynchronous recording loop.
- `tests/` exercises the library on concrete values.
