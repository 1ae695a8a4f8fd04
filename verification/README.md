# Pulse

Pulse consumes the Wikimedia edit stream in real time. It detects articles that erupt with
edits, classifies the bursts from the stream's own annotations, keeps a radar of edit wars,
and runs a game in which every score is settled by what happens next on the same stream.

## Layout

- `src/` is the library, verified with Verus: the stream parser, the raw log, the evidence
  and diversity rules of the detector, the revert parser, the conflict radar, patrol
  eligibility, settlement, session cookies and the rules of the game. Every Valkey command
  that a service sends is built here, and its words are part of the contract.
- `app/` is the program around it: the three services `api`, `ingest` and `detector`, the
  connections to Valkey and Postgres, the files and the clock. Averages, ratios and ratings
  are floating point and are computed here too.
- `tests/` runs the library.

## What is proved

Contracts fix results exactly, over the named results of the outside calls where there are
any. Beyond that, the functions named `law_*`
state what holds of the library as a whole, among others:

- however the stream is cut into chunks, the same frames come out of it;
- the raw log reads back as one stream with every line of every flush, in order;
- a player who sends their session cookie back is recognised, and nobody is without a valid
  signature;
- a settlement comes to an end, grades every open call by the reverts of its own window, and
  forgets every due member exactly once;
- a bet is paid exactly where it was called before the confirmation and before it expired;
- one-sided, stale or too few reverts are never an edit war, nor are editors who undo
  themselves, and a ping-pong or a three-way cycle is one;
- over any run of edits within one window, an article has a window key exactly from its
  second edit on, and the window then holds every one of them;
- a label other than `unclassified` always has evidence of its own kind.

## What is trusted

Nine small functions call code that is not verified here, each with a contract that says
what is relied on: regular expressions (`regex`), gzip in both directions (`flate2`), the HMAC
(`hmac` with `sha2`), hexadecimal (`hex`), and from the standard library the lossy decoding of
UTF-8, lowercasing and which characters are alphabetic.

## Running

```
pulse api        # HTTP on $PORT, 3000 by default
pulse ingest
pulse detector
```

`VALKEY_URL` and `DATABASE_URL` name the stores; `PULSE_SESSION_SECRET` keeps sessions alive
across restarts.

Data: Wikimedia EventStreams. Content edits are © their respective contributors, CC-BY-SA 4.0.
