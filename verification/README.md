# r503d

A daemon that serves an R503 fingerprint sensor, behind a small board on a serial
line, as `net.reactivated.Fprint`: login screens, `sudo` and `fprintd-verify` see
the reader that they know.

The board and the host are paired. Once they share a key, every line between them
carries a MAC and a counter, so that nobody on the line can answer in the
sensor's place or play back what the sensor once said.

## Layout

- `src/` is the library, verified with Verus. It holds everything that the daemon
  decides: the frames and their MACs, the exchange of a command and its replies,
  what lines mean, who may act as whom, who has the reader and what it is doing,
  which slot a finger gets, the sealed key's file format, the steps of pairing
  and of unpairing, and which steps are taken with which files.
- `app/` is the daemon around it: command line, serial port, files, TPM, D-Bus.
- `tests/` runs the library on concrete values.

## What is proved

Each function says what it returns on every input that it takes. Laws that span
functions are public proof functions, named `lemma_..`. Among them:

- what is framed under a key reads back, and only a line whose MAC the key gives,
  for the command in flight and in its turn, is taken for a reply;
- no counter is used twice, also after a crash and a restart;
- a key goes out only behind the steps that withdraw the consent to pairing, and
  while the board says that it is paired, only the first line of an authentic
  answer makes the host forget the key;
- a request to the sensor is answered, once, however often the port is lost;
- only a claimed reader is busy, with one action at a time, and an action that was
  stopped cannot disturb its successors;
- enrolling never gives a finger the slot of another, and a print is forgotten
  only once the sensor has deleted it;
- a sealed key reads back from its file, and the key file and the counter's file
  are never left half written, wherever a write was cut short.

What is not proved is what `std` and other crates do where the library calls them;
each such call has a doc comment that says what is relied on.
