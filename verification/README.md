# Beam

Beam streams the screen of a computer to a browser over WebRTC and lets the viewer use its
keyboard and pointer.

`src/` is the library with what Beam decides, verified with Verus: who may sign in and
change the settings (`http`, `sessions`, `config`), how a session with a viewer goes (`rtc`), how
captured pictures and sounds are laid out and matched to what encoders return (`capture`,
`audio`), what input messages do (`input`), and how the program starts, restarts and shows itself
(`startup`, `tls`, `tray`, `svg`, `logs`).

`app/` is the program around it: the web server, the threads for capture and encoding, the
connection to the peer, files and the system tray. It performs what the library decides. What
needs floating point is computed there too: the scaled sides of the stream, the pixel under the
pointer, the fraction of a wheel step that is left over, and the rate of captured audio, which is
taken for the encoder's where they differ by less than one sample per second.

`tests/` holds examples of what the library does.

The contracts state what each function returns; the proof functions whose names begin with
`law_` state what holds of several of them together. What is believed of other crates stands in
the functions marked `external_body`, each with a comment that says what it claims.
