# sipcord_bridge

A bridge between SIP phones and Discord voice channels. Phones dial an extension and end up in a
voice channel; members of a guild call phones from a voice channel; faxes end up as images in a
text channel.

`src/` is the library, verified with Verus. It holds what the bridge decides and computes, on plain
values:

- `config`, `routing`: settings, the dialplan and where a call goes.
- `call`: the coordinator of bridges and calls, the health check, menus, outbound calls, fax calls.
- `sip`: credentials and registrations, session descriptions, the media of calls, the operations of
  the audio thread, messages of the SIP library.
- `discord`: voices and their mixing, voice activity, the ring buffers between the two sides, the
  commands `/call`, `/hangup` and `/directory`.
- `fax`: TIFF files, Group 3 and Group 4 decoding, pages, the state of a reception.
- `services`: identifiers and sounds.
- `text`, `sorting`: texts as sequences of characters, and a stable sort by label.

Each function states in its contract what it returns or changes. Functions whose names begin with
`law_` state what holds of several functions together. Outside crates are called through small
functions marked `external_body`; the comment above each says what is taken for granted.

`app/` is the program round the library: `main`, settings files, the SIP stack (PJSUA), Discord
(serenity and songbird), the fax modem (SpanDSP), sound files, and floating-point arithmetic. It
hands the library plain values and carries out the steps that come back.

`tests/` runs the library.
