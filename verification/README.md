# WhereBus

Real-time bus arrivals: a web service and a Telegram bot that says when a bus is near. The logic is a
library that is verified with [Verus](https://github.com/verus-lang/verus); the network, the database and
the pages are ordinary Rust around it.

## Layout

- `src/` is the library. Every function carries a contract over the mathematical models of its types
  (`XModel` is what an `X` holds), and every body is proved against it.
  - `text`, `seqs`, `sort` — texts as sequences of characters, searching, stable sorting
  - `models`, `stops` — lines, stops, vehicles, and where a vehicle is on its line
  - `provider` — the sources: which there are, what their replies say, and a simulated one
  - `store`, `db` — what is kept of each user, in memory and in the tables of a database
  - `crypto`, `auth`, `api` — signed data, passwords, sessions
  - `watch` — which vehicle is waited for, when to alert, when a watch is over
  - `render`, `pages`, `telegram`, `tokens` — messages, buttons and keyboards
  - `dialog` — what the bot does for each message and each press of a button
  - `web`, `miniapp`, `console`, `admin` — the checks and the replies of the HTTP interfaces
  - `dotenv` — files that set environment variables
- `tests/` runs the library with the outside crates linked.
- `app/` is the program: configuration, storage, the Telegram client, the HTTP routes and everything in
  floating point (distances, coordinate systems, the geometry of the simulation).

## What is proved

Beside the contracts, each module states what holds across its functions as public proof functions whose
names begin with `law_`. A few examples: only data that is signed by the holder of the bot token and at
most a day old signs anybody in; an alert by stops comes once per watch, alerts by distance keep their
interval; as long as one vehicle in a list has not passed, the first of the list is the one that is
followed; what is saved of a user is what is loaded; a banned user is turned away everywhere.

## What is trusted

The functions marked `external_body`, the one `assume_specification`, and the names in front of them
(`uninterp`): HMAC-SHA256, the random generator, JSON parsing and quoting, lossy UTF-8 decoding, lower
case, the clock and `String::push`. Each says above it what is taken for granted.

Coordinates and other floating-point numbers pass through the library as their bits (`Double`); distances
are measured by the program and handed in as whole metres.
